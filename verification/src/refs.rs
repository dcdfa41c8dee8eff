//! Link-reference tables. CommonMark link reference definitions require a
//! two-pass parse: harvest all definitions first, then resolve `[label]`,
//! `[text][label]` and `[label][]` references during the main parse.

use vstd::prelude::*;
use crate::assoc::StrMap;
use crate::text::{
    chars_of, char_lowercase, is_white_space, is_whitespace, string_of, string_of_range,
    to_lowercase_char, trim_end, trim_end_len, slice_chars,
};

verus! {

/// Destination URL and optional title.
pub type LinkRef = (String, Option<String>);

/// Unicode case folding as the label matcher applies it: std's lower-case
/// mapping, with `ß` folded to `ss`.
pub open spec fn fold_eszett(s: Seq<char>) -> Seq<char>
    decreases s.len(),
{
    if s.len() == 0 {
        s
    } else {
        fold_eszett(s.drop_last()) + (if s.last() == '\u{df}' {
            seq!['s', 's']
        } else {
            seq![s.last()]
        })
    }
}

pub open spec fn case_fold(c: char) -> Seq<char> {
    fold_eszett(char_lowercase(c))
}

/// Scanner state of label normalization: text so far, and whether the last
/// input character was whitespace (true at the start).
pub open spec fn norm_step(st: (Seq<char>, bool), c: char) -> (Seq<char>, bool) {
    if is_white_space(c) {
        if !st.1 {
            (st.0.push(' '), true)
        } else {
            st
        }
    } else {
        (st.0 + case_fold(c), false)
    }
}

pub open spec fn norm_scan(s: Seq<char>) -> (Seq<char>, bool)
    decreases s.len(),
{
    if s.len() == 0 {
        (Seq::empty(), true)
    } else {
        norm_step(norm_scan(s.drop_last()), s.last())
    }
}

/// A normalized label: case-folded, whitespace runs collapsed to one space,
/// no leading or trailing whitespace.
pub open spec fn normalized(s: Seq<char>) -> Seq<char> {
    let out = norm_scan(s).0;
    if out.len() > 0 && out.last() == ' ' {
        out.drop_last()
    } else {
        out
    }
}

/// The scanner run over `s` from state `st`.
pub open spec fn norm_from(st: (Seq<char>, bool), s: Seq<char>) -> (Seq<char>, bool)
    decreases s.len(),
{
    if s.len() == 0 {
        st
    } else {
        norm_step(norm_from(st, s.drop_last()), s.last())
    }
}

/// Only whitespace.
pub open spec fn all_white(s: Seq<char>) -> bool {
    forall|i: int| 0 <= i < s.len() ==> is_white_space(#[trigger] s[i])
}

proof fn lemma_norm_split(a: Seq<char>, b: Seq<char>)
    ensures
        norm_scan(a + b) == norm_from(norm_scan(a), b),
    decreases b.len(),
{
    if b.len() == 0 {
        assert(a + b =~= a);
    } else {
        assert((a + b).drop_last() =~= a + b.drop_last());
        lemma_norm_split(a, b.drop_last());
    }
}

proof fn lemma_norm_from_white(st: (Seq<char>, bool), w: Seq<char>)
    requires
        all_white(w),
        w.len() > 0,
    ensures
        norm_from(st, w) == (if st.1 { st } else { (st.0.push(' '), true) }),
    decreases w.len(),
{
    assert(is_white_space(w[w.len() - 1]));
    if w.len() > 1 {
        assert(all_white(w.drop_last())) by {
            assert forall|i: int| 0 <= i < w.drop_last().len() implies is_white_space(
                #[trigger] w.drop_last()[i],
            ) by {
                assert(w.drop_last()[i] == w[i]);
            }
        }
        lemma_norm_from_white(st, w.drop_last());
    } else {
        assert(w.drop_last() =~= Seq::<char>::empty());
        assert(norm_from(st, w.drop_last()) == st);
    }
}

/// Labels match across whitespace: leading whitespace is ignored, and any
/// non-empty run of whitespace between two parts normalizes like any other
/// (`[foo  bar]` finds `[foo bar]`).
pub proof fn law_whitespace_runs_match(a: Seq<char>, w1: Seq<char>, w2: Seq<char>, b: Seq<char>)
    requires
        all_white(w1),
        all_white(w2),
        w1.len() > 0,
        w2.len() > 0,
    ensures
        normalized(a + w1 + b) == normalized(a + w2 + b),
        normalized(w1 + b) == normalized(b),
{
    lemma_norm_split(a + w1, b);
    lemma_norm_split(a + w2, b);
    lemma_norm_split(a, w1);
    lemma_norm_split(a, w2);
    lemma_norm_from_white(norm_scan(a), w1);
    lemma_norm_from_white(norm_scan(a), w2);
    lemma_norm_split(w1, b);
    lemma_norm_split(Seq::empty(), b);
    lemma_norm_split(Seq::empty(), w1);
    lemma_norm_from_white(norm_scan(Seq::empty()), w1);
    assert(Seq::<char>::empty() + w1 =~= w1);
    assert(Seq::<char>::empty() + b =~= b);
}

/// Appends the case folding of `c`.
fn push_case_folded(out: &mut Vec<char>, c: char)
    ensures
        final(out)@ == old(out)@ + case_fold(c),
{
    let low = to_lowercase_char(c);
    push_folded_lowercase(out, &low);
}

/// Appends lower-cased characters with `ß` folded to `ss`, the rest of
/// case folding that lower-casing leaves.
pub fn push_folded_lowercase(out: &mut Vec<char>, low: &Vec<char>)
    ensures
        final(out)@ == old(out)@ + fold_eszett(low@),
{
    let mut i: usize = 0;
    while i < low.len()
        invariant
            i <= low.len(),
            out@ == old(out)@ + fold_eszett(low@.take(i as int)),
        decreases low.len() - i,
    {
        proof {
            assert(low@.take(i + 1).drop_last() =~= low@.take(i as int));
        }
        if low[i] == '\u{df}' {
            out.push('s');
            out.push('s');
        } else {
            out.push(low[i]);
        }
        i += 1;
        assert(out@ =~= old(out)@ + fold_eszett(low@.take(i as int)));
    }
    assert(low@.take(low.len() as int) =~= low@);
}

/// CommonMark label normalization: case-fold and whitespace-collapse,
/// leading and trailing whitespace trimmed. Backslash escapes are NOT
/// unescaped here, so `[foo\!]` and `[foo!]` match different labels.
pub fn normalize_label(s: &str) -> (r: String)
    ensures
        r@ == normalized(s@),
{
    let v = chars_of(s);
    let mut out: Vec<char> = Vec::new();
    let mut prev_ws = true;
    let mut i: usize = 0;
    while i < v.len()
        invariant
            i <= v.len(),
            (out@, prev_ws) == norm_scan(v@.take(i as int)),
        decreases v.len() - i,
    {
        let c = v[i];
        proof {
            assert(v@.take(i + 1).drop_last() =~= v@.take(i as int));
        }
        if is_whitespace(c) {
            if !prev_ws {
                out.push(' ');
                prev_ws = true;
            }
        } else {
            push_case_folded(&mut out, c);
            prev_ws = false;
        }
        i += 1;
    }
    assert(v@.take(v.len() as int) =~= v@);
    if out.len() > 0 && out[out.len() - 1] == ' ' {
        out.pop();
    }
    string_of(&out)
}

/// The table after defining `label` as `def`: the first definition of a
/// normalized label wins, and an empty normalized label is ignored.
pub open spec fn define<V>(
    m: Map<Seq<char>, V>,
    label: Seq<char>,
    def: V,
) -> Map<Seq<char>, V> {
    let key = normalized(label);
    if key.len() > 0 && !m.dom().contains(key) {
        m.insert(key, def)
    } else {
        m
    }
}

/// What a lookup of `label` finds.
pub open spec fn lookup(m: Map<Seq<char>, LinkRef>, label: Seq<char>) -> Option<LinkRef> {
    let key = normalized(label);
    if m.dom().contains(key) {
        Some(m[key])
    } else {
        None
    }
}

/// Normalized label -> (destination, title).
pub struct RefMap {
    links: StrMap<LinkRef>,
}

impl RefMap {
    pub closed spec fn links(self) -> Map<Seq<char>, LinkRef> {
        self.links.view()
    }

    pub fn new() -> (m: Self)
        ensures
            m.links() == Map::<Seq<char>, LinkRef>::empty(),
    {
        RefMap { links: StrMap::new() }
    }

    /// First definition wins (CommonMark 4.7).
    pub fn insert(&mut self, label: &str, url: String, title: Option<String>)
        ensures
            final(self).links() == define(old(self).links(), label@, (url, title)),
    {
        let key = normalize_label(label);
        if !key.as_str().is_empty() && !self.links.contains_key(&key) {
            self.links.set(key, (url, title));
        }
    }

    pub fn get(&self, label: &str) -> (r: Option<&LinkRef>)
        ensures
            r == match lookup(self.links(), label@) {
                Some(d) => Some(&d),
                None => None::<&LinkRef>,
            },
    {
        let key = normalize_label(label);
        self.links.get(&key)
    }

    pub fn is_empty(&self) -> (r: bool)
        ensures
            r == (self.links().dom() == Set::<Seq<char>>::empty()),
    {
        let n = self.links.len();
        proof {
            if n == 0 {
                assert(self.links().dom() =~= Set::<Seq<char>>::empty());
            } else {
                assert(self.links().dom().len() > 0);
            }
        }
        n == 0
    }
}

impl Default for RefMap {
    /// An empty table.
    fn default() -> (m: Self)
        ensures
            m.links() == Map::<Seq<char>, LinkRef>::empty(),
    {
        RefMap::new()
    }
}

/// The table after defining each `(label, definition)` of `ds` in turn.
pub open spec fn define_all<V>(m: Map<Seq<char>, V>, ds: Seq<(Seq<char>, V)>) -> Map<Seq<char>, V>
    decreases ds.len(),
{
    if ds.len() == 0 {
        m
    } else {
        define(define_all(m, ds.drop_last()), ds.last().0, ds.last().1)
    }
}

/// The first definition in `ds` whose label normalizes to `key`, when
/// `key` is not empty.
pub open spec fn first_definition(ds: Seq<(Seq<char>, LinkRef)>, key: Seq<char>) -> Option<LinkRef>
    decreases ds.len(),
{
    if ds.len() == 0 {
        None
    } else {
        match first_definition(ds.drop_last(), key) {
            Some(d) => Some(d),
            None => if key.len() > 0 && normalized(ds.last().0) == key {
                Some(ds.last().1)
            } else {
                None
            },
        }
    }
}

proof fn lemma_define_all(ds: Seq<(Seq<char>, LinkRef)>)
    ensures
        forall|key: Seq<char>| #[trigger] define_all(Map::empty(), ds).dom().contains(key) <==> first_definition(ds, key) is Some,
        forall|key: Seq<char>| #[trigger] first_definition(ds, key) matches Some(d) ==> define_all(Map::empty(), ds)[key] == d,
    decreases ds.len(),
{
    if ds.len() > 0 {
        lemma_define_all(ds.drop_last());
        let m0 = define_all(Map::empty(), ds.drop_last());
        let m = define_all(Map::empty(), ds);
        assert(m == define(m0, ds.last().0, ds.last().1));
        assert forall|key: Seq<char>| #[trigger] m.dom().contains(key) <==> first_definition(ds, key) is Some by {
            assert(m0.dom().contains(key) <==> first_definition(ds.drop_last(), key) is Some);
        }
        assert forall|key: Seq<char>| #[trigger] first_definition(ds, key) is Some implies m[key] == first_definition(ds, key)->0 by {
            assert(m0.dom().contains(key) <==> first_definition(ds.drop_last(), key) is Some);
            if let Some(d0) = first_definition(ds.drop_last(), key) {
                assert(m0[key] == d0);
            }
        }
    } else {
        assert forall|key: Seq<char>| #[trigger] define_all(Map::empty(), ds).dom().contains(key) <==> first_definition(ds, key) is Some by {
            assert(define_all(Map::empty(), ds) == Map::<Seq<char>, LinkRef>::empty());
        }
    }
}

/// Over any sequence of definitions on a new table, a lookup finds the
/// first definition whose label normalizes like the one looked up: later
/// redefinitions, with any other definitions between, never replace it
/// (CommonMark 4.7).
pub proof fn law_first_definition_over_history(ds: Seq<(Seq<char>, LinkRef)>, label: Seq<char>)
    ensures
        lookup(define_all(Map::empty(), ds), label) == first_definition(ds, normalized(label)),
{
    lemma_define_all(ds);
    let key = normalized(label);
    if define_all(Map::empty(), ds).dom().contains(key) {
        assert(first_definition(ds, key) is Some);
    } else {
        assert(first_definition(ds, key) is None);
    }
}

/// A table built by definitions on a new table is empty exactly when every
/// label normalized to nothing.
pub proof fn law_empty_over_history(ds: Seq<(Seq<char>, LinkRef)>)
    ensures
        (define_all(Map::empty(), ds).dom() == Set::<Seq<char>>::empty()) <==> forall|i: int|
            0 <= i < ds.len() ==> normalized(#[trigger] ds[i].0).len() == 0,
    decreases ds.len(),
{
    lemma_define_all(ds);
    if ds.len() > 0 {
        law_empty_over_history(ds.drop_last());
        let m0 = define_all(Map::empty(), ds.drop_last());
        let k = normalized(ds.last().0);
        if forall|i: int| 0 <= i < ds.len() ==> normalized(#[trigger] ds[i].0).len() == 0 {
            assert forall|i: int| 0 <= i < ds.drop_last().len() implies normalized(
                #[trigger] ds.drop_last()[i].0,
            ).len() == 0 by {
                assert(ds.drop_last()[i] == ds[i]);
            }
            assert(define_all(Map::empty(), ds).dom() =~= Set::<Seq<char>>::empty());
        } else {
            let i = choose|i: int| 0 <= i < ds.len() && normalized(#[trigger] ds[i].0).len() != 0;
            let ki = normalized(ds[i].0);
            if i == ds.len() - 1 {
                assert(define_all(Map::empty(), ds).dom().contains(k));
            } else {
                assert(ds.drop_last()[i] == ds[i]);
                assert(!(m0.dom() =~= Set::<Seq<char>>::empty()));
                let w = choose|w: Seq<char>| m0.dom().contains(w);
                assert(define_all(Map::empty(), ds).dom().contains(w));
            }
            assert(!(define_all(Map::empty(), ds).dom() =~= Set::<Seq<char>>::empty()));
        }
    }
}

/// Std's lower-casing is stable on the characters of `s`: each character
/// that is not whitespace folds to at least one character, none of them
/// whitespace, and each of them folds to itself.
pub open spec fn folds_stably(s: Seq<char>) -> bool {
    forall|i: int|
        0 <= i < s.len() && !is_white_space(#[trigger] s[i]) ==> {
            let f = case_fold(s[i]);
            &&& f.len() > 0
            &&& forall|j: int| 0 <= j < f.len() ==> !is_white_space(#[trigger] f[j]) && case_fold(f[j]) == seq![f[j]]
        }
}

/// Text as normalization leaves it: single spaces between non-whitespace
/// characters that fold to themselves.
pub open spec fn clean_label(n: Seq<char>) -> bool {
    &&& forall|i: int| 0 <= i < n.len() ==> (#[trigger] n[i] == ' ' || (!is_white_space(n[i]) && case_fold(n[i]) == seq![n[i]]))
    &&& forall|i: int| 0 <= i < n.len() - 1 ==> !(#[trigger] n[i] == ' ' && n[i + 1] == ' ')
    &&& (n.len() > 0 ==> n[0] != ' ')
}

proof fn lemma_scan_clean(s: Seq<char>)
    requires
        folds_stably(s),
    ensures
        ({
            let (out, flag) = norm_scan(s);
            &&& clean_label(out)
            &&& (flag <==> (out.len() == 0 || out.last() == ' '))
        }),
    decreases s.len(),
{
    if s.len() > 0 {
        let s0 = s.drop_last();
        assert forall|i: int| 0 <= i < s0.len() && !is_white_space(#[trigger] s0[i]) implies {
            let f = case_fold(s0[i]);
            &&& f.len() > 0
            &&& forall|j: int| 0 <= j < f.len() ==> !is_white_space(#[trigger] f[j]) && case_fold(f[j]) == seq![f[j]]
        } by {
            assert(s0[i] == s[i]);
        }
        lemma_scan_clean(s0);
        let (o0, f0) = norm_scan(s0);
        let c = s.last();
        let (out, flag) = norm_scan(s);
        if !is_white_space(c) {
            let f = case_fold(c);
            assert(s[s.len() - 1] == c);
            assert forall|i: int| 0 <= i < out.len() implies (#[trigger] out[i] == ' ' || (!is_white_space(out[i])
                && case_fold(out[i]) == seq![out[i]])) by {
                if i < o0.len() {
                    assert(out[i] == o0[i]);
                } else {
                    assert(out[i] == f[i - o0.len()]);
                }
            }
            assert forall|i: int| 0 <= i < out.len() - 1 implies !(#[trigger] out[i] == ' ' && out[i + 1] == ' ') by {
                if i + 1 < o0.len() {
                    assert(out[i] == o0[i] && out[i + 1] == o0[i + 1]);
                } else {
                    assert(out[i + 1] == f[i + 1 - o0.len()]);
                }
            }
            if out.len() > 0 {
                if o0.len() > 0 {
                    assert(out[0] == o0[0]);
                } else {
                    assert(out[0] == f[0]);
                }
            }
            assert(out.last() == f.last());
        } else if !f0 {
            assert forall|i: int| 0 <= i < out.len() implies (#[trigger] out[i] == ' ' || (!is_white_space(out[i])
                && case_fold(out[i]) == seq![out[i]])) by {
                if i < o0.len() {
                    assert(out[i] == o0[i]);
                }
            }
            assert forall|i: int| 0 <= i < out.len() - 1 implies !(#[trigger] out[i] == ' ' && out[i + 1] == ' ') by {
                if i + 1 < o0.len() {
                    assert(out[i] == o0[i] && out[i + 1] == o0[i + 1]);
                } else {
                    assert(out[i] == o0.last());
                }
            }
            assert(out[0] == o0[0]);
        }
    }
}

proof fn lemma_scan_of_clean(n: Seq<char>, k: int)
    requires
        clean_label(n),
        0 <= k <= n.len(),
    ensures
        norm_scan(n.take(k)) == (n.take(k), k == 0 || n[k - 1] == ' '),
    decreases k,
{
    if k > 0 {
        lemma_scan_of_clean(n, k - 1);
        assert(n.take(k).drop_last() =~= n.take(k - 1));
        assert(n.take(k).last() == n[k - 1]);
        assert(n.take(k - 1).push(n[k - 1]) =~= n.take(k));
        assert(n.take(k - 1) + seq![n[k - 1]] =~= n.take(k));
        if n[k - 1] == ' ' {
            assert(k - 1 > 0);
            assert(!(n[k - 2] == ' ' && n[k - 1] == ' '));
        }
    } else {
        assert(n.take(0) =~= Seq::<char>::empty());
    }
}

/// Normalizing a normalized label changes nothing, wherever std's
/// lower-casing is stable on the label's characters (`folds_stably`).
pub proof fn law_normalize_idempotent(s: Seq<char>)
    ensures
        folds_stably(s) ==> normalized(normalized(s)) == normalized(s),
{
    if folds_stably(s) {
        lemma_scan_clean(s);
        let (out, flag) = norm_scan(s);
        let n = normalized(s);
        assert(clean_label(n)) by {
            if out.len() > 0 && out.last() == ' ' {
                assert forall|i: int| 0 <= i < n.len() implies (#[trigger] n[i] == ' ' || (!is_white_space(n[i])
                    && case_fold(n[i]) == seq![n[i]])) by {
                    assert(n[i] == out[i]);
                }
                assert forall|i: int| 0 <= i < n.len() - 1 implies !(#[trigger] n[i] == ' ' && n[i + 1] == ' ') by {
                    assert(n[i] == out[i] && n[i + 1] == out[i + 1]);
                }
                if n.len() > 0 {
                    assert(n[0] == out[0]);
                }
            }
        }
        lemma_scan_of_clean(n, n.len() as int);
        assert(n.take(n.len() as int) =~= n);
        if n.len() > 0 {
            if out.len() > 0 && out.last() == ' ' {
                assert(n.last() == out[out.len() - 2]);
                assert(!(out[out.len() - 2] == ' ' && out[out.len() - 1] == ' '));
            }
        }
    }
}

/// Redefining a label that was already defined keeps the first definition:
/// after defining `first` and then `second` under labels that normalize
/// alike, a lookup of either label finds `first` (CommonMark 4.7), unless
/// the table already held that label.
pub proof fn law_first_definition_wins(
    m: Map<Seq<char>, LinkRef>,
    l1: Seq<char>,
    l2: Seq<char>,
    first: LinkRef,
    second: LinkRef,
)
    requires
        normalized(l1) == normalized(l2),
        normalized(l1).len() > 0,
        !m.dom().contains(normalized(l1)),
    ensures
        lookup(define(define(m, l1, first), l2, second), l1) == Some(first),
        lookup(define(define(m, l1, first), l2, second), l2) == Some(first),
{
}

/// A defined label is found again by every label that normalizes alike.
pub proof fn law_defined_label_found(m: Map<Seq<char>, LinkRef>, label: Seq<char>, other: Seq<char>, def: LinkRef)
    requires
        normalized(label).len() > 0,
        normalized(other) == normalized(label),
        !m.dom().contains(normalized(label)),
    ensures
        lookup(define(m, label, def), other) == Some(def),
{
}

// ---------------------------------------------------------------------
// `[label]: destination "title"` definitions
// ---------------------------------------------------------------------

/// Space, tab or line feed.
pub open spec fn is_link_space(c: char) -> bool {
    c == ' ' || c == '\t' || c == '\n'
}

/// Index of the label's closing `]` at or after `i`, skipping backslash
/// escapes; `s.len()` when there is none.
pub open spec fn label_close(s: Seq<char>, i: int) -> int
    decreases s.len() - i,
{
    if i < 0 || i >= s.len() {
        s.len() as int
    } else if s[i] == ']' {
        i
    } else if s[i] == '\\' && i + 1 < s.len() {
        label_close(s, i + 2)
    } else {
        label_close(s, i + 1)
    }
}

/// First index at or after `j` that is not a link space.
pub open spec fn skip_link_space(s: Seq<char>, j: int) -> int
    decreases s.len() - j,
{
    if j < 0 || j >= s.len() {
        s.len() as int
    } else if is_link_space(s[j]) {
        skip_link_space(s, j + 1)
    } else {
        j
    }
}

/// First index at or after `j` holding `>` or a line feed.
pub open spec fn angle_stop(s: Seq<char>, j: int) -> int
    decreases s.len() - j,
{
    if j < 0 || j >= s.len() {
        s.len() as int
    } else if s[j] == '>' || s[j] == '\n' {
        j
    } else {
        angle_stop(s, j + 1)
    }
}

/// First index at or after `j` holding a link space.
pub open spec fn bare_stop(s: Seq<char>, j: int) -> int
    decreases s.len() - j,
{
    if j < 0 || j >= s.len() {
        s.len() as int
    } else if is_link_space(s[j]) {
        j
    } else {
        bare_stop(s, j + 1)
    }
}

/// The destination starting at `j`, and the index after it.
pub open spec fn ref_destination(s: Seq<char>, j: int) -> Option<(Seq<char>, int)> {
    if 0 <= j < s.len() && s[j] == '<' {
        let p = angle_stop(s, j + 1);
        if p >= s.len() || s[p] != '>' {
            None
        } else {
            Some((s.subrange(j + 1, p), p + 1))
        }
    } else {
        let p = bare_stop(s, j);
        if p == j {
            None
        } else {
            Some((s.subrange(j, p), p))
        }
    }
}

/// A title: `"..."`, `'...'` or `(...)`, delimiters included.
pub open spec fn quoted_title(rest: Seq<char>) -> bool {
    rest.len() >= 2 && ((rest[0] == '"' && rest.last() == '"') || (rest[0] == '\'' && rest.last()
        == '\'') || (rest[0] == '(' && rest.last() == ')'))
}

/// The optional title after the destination, read from index `k0` on;
/// `None` when something other than a well-formed title follows.
pub open spec fn ref_title(s: Seq<char>, k0: int) -> Option<Option<Seq<char>>> {
    let k = skip_link_space(s, k0);
    if k >= s.len() {
        Some(None)
    } else {
        let rest = trim_end(s.skip(k));
        if rest.len() == 0 {
            Some(None)
        } else if quoted_title(rest) {
            Some(Some(rest.subrange(1, rest.len() - 1)))
        } else {
            None
        }
    }
}

/// `(label, url, title)` of a `[label]: url "title"` definition, or `None`
/// when the `]`, the `:` or the destination is missing or the text after
/// the destination is not a title.
pub open spec fn link_ref_def(s: Seq<char>) -> Option<(Seq<char>, Seq<char>, Option<Seq<char>>)> {
    if s.len() == 0 || s[0] != '[' {
        None
    } else {
        let i = label_close(s, 1);
        if i >= s.len() || !(i + 1 < s.len() && s[i + 1] == ':') {
            None
        } else {
            match ref_destination(s, skip_link_space(s, i + 2)) {
                None => None,
                Some((url, k0)) => match ref_title(s, k0) {
                    None => None,
                    Some(title) => Some((s.subrange(1, i), url, title)),
                },
            }
        }
    }
}

proof fn lemma_label_close_range(s: Seq<char>, i: int)
    requires
        0 <= i,
    ensures
        i <= label_close(s, i) <= s.len() || (i > s.len() && label_close(s, i) == s.len()),
        label_close(s, i) < s.len() ==> s[label_close(s, i)] == ']',
    decreases s.len() - i,
{
    if i < s.len() && s[i] != ']' {
        if s[i] == '\\' && i + 1 < s.len() {
            lemma_label_close_range(s, i + 2);
        } else {
            lemma_label_close_range(s, i + 1);
        }
    }
}

proof fn lemma_skip_link_space_range(s: Seq<char>, j: int)
    requires
        0 <= j,
    ensures
        (j <= s.len() ==> j <= skip_link_space(s, j) <= s.len()),
        (j > s.len() ==> skip_link_space(s, j) == s.len()),
    decreases s.len() - j,
{
    if j < s.len() && is_link_space(s[j]) {
        lemma_skip_link_space_range(s, j + 1);
    }
}

proof fn lemma_angle_stop_range(s: Seq<char>, j: int)
    requires
        0 <= j <= s.len(),
    ensures
        j <= angle_stop(s, j) <= s.len(),
    decreases s.len() - j,
{
    if j < s.len() && !(s[j] == '>' || s[j] == '\n') {
        lemma_angle_stop_range(s, j + 1);
    }
}

proof fn lemma_bare_stop_range(s: Seq<char>, j: int)
    requires
        0 <= j <= s.len(),
    ensures
        j <= bare_stop(s, j) <= s.len(),
    decreases s.len() - j,
{
    if j < s.len() && !is_link_space(s[j]) {
        lemma_bare_stop_range(s, j + 1);
    }
}

fn link_space(c: char) -> (r: bool)
    ensures
        r == is_link_space(c),
{
    c == ' ' || c == '\t' || c == '\n'
}

fn skip_spaces_from(v: &Vec<char>, j: usize) -> (r: usize)
    requires
        j <= v.len(),
    ensures
        r as int == skip_link_space(v@, j as int),
        r <= v.len(),
{
    let mut p = j;
    while p < v.len() && link_space(v[p])
        invariant
            j <= p <= v.len(),
            skip_link_space(v@, j as int) == skip_link_space(v@, p as int),
        decreases v.len() - p,
    {
        p += 1;
    }
    p
}

/// Parse a link reference definition `[label]: url "title"` into
/// `(label, url, title)`. Fails when the `]` or the `:` is missing, the
/// destination is missing or unterminated, or junk follows it.
pub fn parse_link_ref_def(raw: &str) -> (r: Option<(String, String, Option<String>)>)
    ensures
        match link_ref_def(raw@) {
            None => r is None,
            Some((label, url, title)) => r matches Some((l, u, t)) && l@ == label && u@ == url
                && match title {
                None => t is None,
                Some(tt) => t matches Some(x) && x@ == tt,
            },
        },
{
    let s = chars_of(raw);
    let ghost g = s@;
    if s.len() == 0 || s[0] != '[' {
        return None;
    }
    let mut i: usize = 1;
    while i < s.len() && s[i] != ']'
        invariant
            1 <= i <= s.len(),
            g == s@,
            label_close(g, 1) == label_close(g, i as int),
        decreases s.len() - i,
    {
        if s[i] == '\\' && i + 1 < s.len() {
            i += 2;
            continue;
        }
        i += 1;
    }
    if i >= s.len() {
        return None;
    }
    let label = string_of_range(&s, 1, i);
    let after = i + 1;
    if !(after < s.len() && s[after] == ':') {
        return None;
    }
    let j = skip_spaces_from(&s, after + 1);
    let url;
    let mut k: usize;
    if j < s.len() && s[j] == '<' {
        let start = j + 1;
        let mut p = start;
        while p < s.len() && s[p] != '>' && s[p] != '\n'
            invariant
                start <= p <= s.len(),
                g == s@,
                angle_stop(g, start as int) == angle_stop(g, p as int),
            decreases s.len() - p,
        {
            p += 1;
        }
        if p >= s.len() || s[p] != '>' {
            return None;
        }
        url = string_of_range(&s, start, p);
        k = p + 1;
    } else {
        let start = j;
        let mut p = start;
        while p < s.len() && !link_space(s[p])
            invariant
                start <= p <= s.len(),
                g == s@,
                bare_stop(g, start as int) == bare_stop(g, p as int),
            decreases s.len() - p,
        {
            p += 1;
        }
        if start == p {
            return None;
        }
        url = string_of_range(&s, start, p);
        k = p;
    }
    k = skip_spaces_from(&s, k);
    let title = if k >= s.len() {
        None
    } else {
        let tail = slice_chars(&s, k, s.len());
        let n = trim_end_len(&tail);
        if n == 0 {
            proof {
                assert(trim_end(g.skip(k as int)).len() == 0);
            }
            None
        } else {
            let first = tail[0];
            let last = tail[n - 1];
            let matched = (first == '"' && last == '"') || (first == '\'' && last == '\'') || (first
                == '(' && last == ')');
            proof {
                assert(tail@ =~= g.skip(k as int));
            }
            if matched && n >= 2 {
                Some(string_of_range(&tail, 1, n - 1))
            } else {
                return None;
            }
        }
    };
    Some((label, url, title))
}

} // verus!
