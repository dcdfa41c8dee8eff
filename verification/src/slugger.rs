//! GitHub-style heading-anchor slugs (the `github-slugger` rules): lower
//! case, drop punctuation and control characters, turn whitespace runs into
//! one `-`, collapse repeated `-`, drop trailing `-`. `Slugger` adds the
//! per-document `-1`, `-2`, ... suffixes for repeated headings.

use vstd::prelude::*;
use crate::text::{
    digit_char,
    chars_of, decimal, decimal_of, is_control, is_control_char, is_white_space, is_whitespace,
    is_alphanumeric, lead_ws, lemma_lead_ws_bound, lemma_trail_ws_bound, push_all, str_lowercase, string_of,
    to_lowercase_str, trail_ws, trim, trim_vec,
    unicode_alphanumeric,
};
use crate::assoc::StrMap;

verus! {

/// Scanner state after a prefix of the lower-cased text: the slug so far
/// and whether its last emitted character is a `-`.
pub open spec fn slug_step(st: (Seq<char>, bool), ch: char) -> (Seq<char>, bool) {
    let (out, prev_dash) = st;
    if is_control_char(ch) {
        st
    } else if is_white_space(ch) {
        if !prev_dash && out.len() > 0 {
            (out.push('-'), true)
        } else {
            st
        }
    } else if ch == '-' {
        if prev_dash || out.len() == 0 {
            st
        } else {
            (out.push('-'), true)
        }
    } else if unicode_alphanumeric(ch) || ch == '_' {
        (out.push(ch), false)
    } else {
        st
    }
}

pub open spec fn slug_scan(s: Seq<char>) -> (Seq<char>, bool)
    decreases s.len(),
{
    if s.len() == 0 {
        (Seq::empty(), false)
    } else {
        slug_step(slug_scan(s.drop_last()), s.last())
    }
}

/// Number of trailing `-` characters.
pub open spec fn trailing_dashes(s: Seq<char>) -> nat
    decreases s.len(),
{
    if s.len() > 0 && s.last() == '-' {
        1 + trailing_dashes(s.drop_last())
    } else {
        0
    }
}

/// The slug of already lower-cased text.
pub open spec fn slug_of_lower(lower: Seq<char>) -> Seq<char> {
    let out = slug_scan(lower).0;
    out.take(out.len() - trailing_dashes(out))
}

/// The slug of a heading text: trimmed, lower-cased (std's string
/// lower-casing), then scanned.
pub open spec fn github_slug(input: Seq<char>) -> Seq<char> {
    slug_of_lower(str_lowercase(trim(input)))
}

/// A character that may stand in a slug besides `-`.
pub open spec fn is_slug_word_char(c: char) -> bool {
    !is_control_char(c) && !is_white_space(c) && c != '-' && (unicode_alphanumeric(c) || c == '_')
}

/// The shape of every slug: only word characters and `-`, no `--`, and
/// no `-` at either end.
pub open spec fn slug_shaped(s: Seq<char>) -> bool {
    &&& forall|i: int| 0 <= i < s.len() ==> (#[trigger] s[i] == '-' || is_slug_word_char(s[i]))
    &&& forall|i: int| 0 <= i < s.len() - 1 ==> !(#[trigger] s[i] == '-' && s[i + 1] == '-')
    &&& (s.len() > 0 ==> s.last() != '-')
    &&& (s.len() > 0 ==> s[0] != '-')
}

proof fn lemma_scan_shape(s: Seq<char>)
    ensures
        ({
            let (out, prev) = slug_scan(s);
            &&& forall|i: int| 0 <= i < out.len() ==> (#[trigger] out[i] == '-' || is_slug_word_char(out[i]))
            &&& forall|i: int| 0 <= i < out.len() - 1 ==> !(#[trigger] out[i] == '-' && out[i + 1] == '-')
            &&& (prev <==> (out.len() > 0 && out.last() == '-'))
            &&& (out.len() > 0 ==> out[0] != '-')
        }),
    decreases s.len(),
{
    if s.len() > 0 {
        lemma_scan_shape(s.drop_last());
        let (out0, prev0) = slug_scan(s.drop_last());
        let (out, prev) = slug_scan(s);
        assert forall|i: int| 0 <= i < out.len() implies (#[trigger] out[i] == '-' || is_slug_word_char(out[i])) by {
            if i < out0.len() {
                assert(out[i] == out0[i]);
            }
        }
        assert forall|i: int| 0 <= i < out.len() - 1 implies !(#[trigger] out[i] == '-' && out[i + 1] == '-') by {
            if i + 1 < out0.len() {
                assert(out[i] == out0[i]);
                assert(out[i + 1] == out0[i + 1]);
            } else if out.len() > out0.len() {
                assert(out[i] == out0.last());
            }
        }
    }
}

proof fn lemma_trailing_dashes(s: Seq<char>)
    ensures
        trailing_dashes(s) <= s.len(),
        trailing_dashes(s) < s.len() ==> s[s.len() - trailing_dashes(s) - 1] != '-',
    decreases s.len(),
{
    if s.len() > 0 && s.last() == '-' {
        lemma_trailing_dashes(s.drop_last());
    }
}

/// Every slug has the slug shape: only letters, digits, `_` and `-`, never
/// two `-` in a row, never a `-` at the start or the end.
pub proof fn law_slug_shaped(input: Seq<char>)
    ensures
        slug_shaped(github_slug(input)),
{
    let lower = str_lowercase(trim(input));
    lemma_scan_shape(lower);
    let out = slug_scan(lower).0;
    lemma_trailing_dashes(out);
    let r = out.take(out.len() - trailing_dashes(out));
    assert forall|i: int| 0 <= i < r.len() implies (#[trigger] r[i] == '-' || is_slug_word_char(r[i])) by {
        assert(r[i] == out[i]);
    }
    assert forall|i: int| 0 <= i < r.len() - 1 implies !(#[trigger] r[i] == '-' && r[i + 1] == '-') by {
        assert(r[i] == out[i]);
        assert(r[i + 1] == out[i + 1]);
    }
}

proof fn lemma_scan_of_slug(s: Seq<char>, k: int)
    requires
        slug_shaped(s),
        0 <= k <= s.len(),
    ensures
        slug_scan(s.take(k)) == (s.take(k), k > 0 && s[k - 1] == '-'),
    decreases k,
{
    if k > 0 {
        lemma_scan_of_slug(s, k - 1);
        assert(s.take(k).drop_last() =~= s.take(k - 1));
        assert(s.take(k).last() == s[k - 1]);
        assert(s.take(k - 1).push(s[k - 1]) =~= s.take(k));
        if s[k - 1] == '-' {
            assert(k - 1 > 0);
            assert(!(s[k - 2] == '-' && s[k - 1] == '-'));
        }
    } else {
        assert(s.take(0) =~= Seq::<char>::empty());
    }
}

/// Slugging a slug again gives it back, wherever std's lower-casing leaves
/// that slug as it is: a slug has no whitespace to trim, keeps only
/// characters the scanner keeps, and has no `-` to collapse or drop.
pub proof fn law_slug_idempotent(input: Seq<char>)
    ensures
        str_lowercase(github_slug(input)) == github_slug(input) ==> github_slug(github_slug(input))
            == github_slug(input),
{
    let s = github_slug(input);
    law_slug_shaped(input);
    if str_lowercase(s) == s {
        lemma_lead_ws_bound(s);
        lemma_trail_ws_bound(s);
        if s.len() > 0 {
            assert(!is_white_space(s[0]));
            assert(lead_ws(s) == 0);
            assert(!is_white_space(s.last()));
            assert(trail_ws(s.skip(0)) == 0) by {
                assert(s.skip(0) =~= s);
            }
        }
        assert(trim(s) =~= s) by {
            assert(s.skip(lead_ws(s) as int) =~= s);
        }
        lemma_scan_of_slug(s, s.len() as int);
        assert(s.take(s.len() as int) =~= s);
        assert(trailing_dashes(s) == 0);
        assert(s.take(s.len() - trailing_dashes(s)) =~= s);
    }
}

/// Compute the GitHub-style slug for a single heading, ignoring dedupe.
/// For document-wide dedupe, use `Slugger::slug`.
pub fn github_slugify(input: &str) -> (r: String)
    ensures
        r@ == github_slug(input@),
{
    let chars = chars_of(input);
    let trimmed = trim_vec(&chars);
    let trimmed_str = string_of(&trimmed);
    let lower_str = to_lowercase_str(trimmed_str.as_str());
    slugify_lowercase(lower_str.as_str())
}

/// The slug of text that is already trimmed and lower-cased: control
/// characters dropped, whitespace runs and `-` runs made one `-` (none at
/// the start), letters, digits and `_` kept, everything else dropped, and
/// trailing `-` removed.
pub fn slugify_lowercase(lower_str: &str) -> (r: String)
    ensures
        r@ == slug_of_lower(lower_str@),
{
    let lower = chars_of(lower_str);
    let mut out: Vec<char> = Vec::new();
    let mut prev_dash = false;
    let mut i: usize = 0;
    while i < lower.len()
        invariant
            i <= lower.len(),
            (out@, prev_dash) == slug_scan(lower@.take(i as int)),
        decreases lower.len() - i,
    {
        let ch = lower[i];
        proof {
            assert(lower@.take(i + 1).drop_last() =~= lower@.take(i as int));
        }
        i += 1;
        if is_control(ch) {
            continue;
        }
        if is_whitespace(ch) {
            if !prev_dash && out.len() > 0 {
                out.push('-');
                prev_dash = true;
            }
            continue;
        }
        if is_alphanumeric(ch) || ch == '_' || ch == '-' {
            if ch == '-' {
                if prev_dash || out.len() == 0 {
                    continue;
                }
                out.push('-');
                prev_dash = true;
            } else {
                out.push(ch);
                prev_dash = false;
            }
        }
    }
    assert(lower@.take(lower.len() as int) =~= lower@);
    let ghost full = out@;
    while out.len() > 0 && out[out.len() - 1] == '-'
        invariant
            out@.len() <= full.len(),
            out@ == full.take(out@.len() as int),
            trailing_dashes(full) == (full.len() - out@.len()) + trailing_dashes(out@),
        decreases out.len(),
    {
        proof {
            assert(out@.drop_last() =~= full.take(out@.len() - 1));
        }
        out.pop();
    }
    string_of(&out)
}

/// Document-scoped slugger. Tracks how many times each base slug has
/// already been emitted; collisions get a `-1`, `-2`, ... suffix.
pub struct Slugger {
    seen: StrMap<u32>,
}

/// The slug handed out for `base` when it was emitted `count` times before.
pub open spec fn suffixed(base: Seq<char>, count: nat) -> Seq<char> {
    if count == 0 {
        base
    } else {
        base + seq!['-'] + decimal(count)
    }
}

impl Slugger {
    /// How many times each base slug has been emitted.
    pub closed spec fn counts(self) -> Map<Seq<char>, u32> {
        self.seen.view()
    }

    /// Times `base` has been emitted so far.
    pub open spec fn times(self, base: Seq<char>) -> nat {
        if self.counts().dom().contains(base) {
            self.counts()[base] as nat
        } else {
            0
        }
    }

    pub fn new() -> (s: Self)
        ensures
            s.counts() == Map::<Seq<char>, u32>::empty(),
    {
        Slugger { seen: StrMap::new() }
    }

    /// Compute the slug for `text`, suffixing with `-N` when the base slug
    /// has been emitted `N` times before. Empty input -> empty string;
    /// dedupe still applies, so two empty headings get `""` and `"-1"`.
    pub fn slug(&mut self, text: &str) -> (r: String)
        requires
            forall|k: Seq<char>| #[trigger] old(self).counts().dom().contains(k) ==> old(self).counts()[k] < u32::MAX,
        ensures
            r@ == suffixed(github_slug(text@), old(self).times(github_slug(text@))),
            final(self).counts() == old(self).counts().insert(
                github_slug(text@),
                (old(self).times(github_slug(text@)) + 1) as u32,
            ),
    {
        let base = github_slugify(text);
        let count: u32 = match self.seen.get(&base) {
            Some(c) => *c,
            None => 0,
        };
        let out = if count == 0 {
            base.clone()
        } else {
            let mut v = chars_of(base.as_str());
            v.push('-');
            let digits = decimal_of(count as u64);
            push_all(&mut v, &digits);
            string_of(&v)
        };
        self.seen.set(base, count + 1);
        out
    }
}

proof fn lemma_decimal_nonempty(n: nat)
    ensures
        decimal(n).len() >= 1,
        n >= 10 ==> decimal(n).len() >= 2,
    decreases n,
{
    if n >= 10 {
        lemma_decimal_nonempty(n / 10);
    }
}

proof fn lemma_decimal_injective(n: nat, m: nat)
    requires
        decimal(n) == decimal(m),
    ensures
        n == m,
    decreases n,
{
    lemma_decimal_nonempty(n);
    lemma_decimal_nonempty(m);
    if n >= 10 && m >= 10 {
        assert(decimal(n).last() == digit_char(n % 10));
        assert(decimal(m).last() == digit_char(m % 10));
        assert(n % 10 == m % 10);
        assert(decimal(n).drop_last() == decimal(n / 10));
        assert(decimal(m).drop_last() == decimal(m / 10));
        lemma_decimal_injective(n / 10, m / 10);
    } else if n < 10 && m < 10 {
        assert(decimal(n)[0] == digit_char(n));
        assert(decimal(m)[0] == digit_char(m));
    }
}

/// A document never gets the same anchor twice from one base slug: the
/// emissions of a base under different counts (`base`, `base-1`, `base-2`,
/// ...) are all different.
pub proof fn law_dedupe_never_repeats(base: Seq<char>, i: nat, j: nat)
    requires
        i != j,
    ensures
        suffixed(base, i) != suffixed(base, j),
{
    if i > 0 && j > 0 {
        if suffixed(base, i) == suffixed(base, j) {
            let p: int = base.len() as int + 1;
            assert(suffixed(base, i).skip(p) =~= decimal(i));
            assert(suffixed(base, j).skip(p) =~= decimal(j));
            lemma_decimal_injective(i, j);
        }
    } else {
        let k: nat = if i > 0 { i } else { j };
        assert(suffixed(base, k).len() > base.len());
    }
}

/// Times `base` has been emitted according to a count table.
pub open spec fn count_of(m: Map<Seq<char>, u32>, base: Seq<char>) -> nat {
    if m.dom().contains(base) {
        m[base] as nat
    } else {
        0
    }
}

/// The count table after slugging each text of `texts` in turn on a new
/// slugger (what `Slugger::new` and `Slugger::slug` state, call by call).
pub open spec fn counts_after(texts: Seq<Seq<char>>) -> Map<Seq<char>, u32>
    decreases texts.len(),
{
    if texts.len() == 0 {
        Map::empty()
    } else {
        let m = counts_after(texts.drop_last());
        let b = github_slug(texts.last());
        m.insert(b, (count_of(m, b) + 1) as u32)
    }
}

/// Number of texts whose base slug is `base`.
pub open spec fn texts_with_base(texts: Seq<Seq<char>>, base: Seq<char>) -> nat
    decreases texts.len(),
{
    if texts.len() == 0 {
        0
    } else {
        texts_with_base(texts.drop_last(), base) + if github_slug(texts.last()) == base {
            1nat
        } else {
            0nat
        }
    }
}

/// Over a document's history: after slugging `texts` on a new slugger, a
/// base slug has been counted once per earlier heading with that base, so
/// the next heading with base `b` gets `b` the first time and `b-n` after
/// `n` earlier ones.
pub proof fn law_slug_history(texts: Seq<Seq<char>>, base: Seq<char>)
    requires
        texts_with_base(texts, base) < u32::MAX,
    ensures
        count_of(counts_after(texts), base) == texts_with_base(texts, base),
    decreases texts.len(),
{
    if texts.len() > 0 {
        law_slug_history(texts.drop_last(), base);
    }
}

impl Default for Slugger {
    /// A slugger that has emitted nothing yet.
    fn default() -> (s: Self)
        ensures
            s.counts() == Map::<Seq<char>, u32>::empty(),
    {
        Slugger::new()
    }
}

} // verus!
