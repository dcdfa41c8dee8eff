//! Character and string primitives shared by every module: conversions
//! between `str` and `Vec<char>`, ASCII classes, decimal rendering, and the
//! Unicode classifications of std that the parser relies on.

use vstd::prelude::*;

verus! {

// ---------------------------------------------------------------------
// Conversions
// ---------------------------------------------------------------------

/// `str` as its sequence of Unicode scalar values.
pub fn chars_of(s: &str) -> (v: Vec<char>)
    ensures
        v@ == s@,
{
    let mut v: Vec<char> = Vec::new();
    for c in it: s.chars()
        invariant
            v@ == it.seq().take(it.index() as int),
            it.seq() == s@,
    {
        v.push(c);
    }
    v
}

/// Collects a character vector into a `String` (std's `FromIterator<&char>`
/// for `String`); the string holds exactly those characters, in order.
#[verifier::external_body]
pub(crate) fn string_of(v: &Vec<char>) -> (s: String)
    ensures
        s@ == v@,
{
    v.iter().collect()
}

/// std's `String::push_str`: appends the characters of `t` to `s`.
#[verifier::external_body]
pub(crate) fn append_str(s: &mut String, t: &str)
    ensures
        final(s)@ == old(s)@ + t@,
{
    s.push_str(t);
}

/// A fresh `String` holding the characters of `v[lo..hi]`.
pub fn string_of_range(v: &Vec<char>, lo: usize, hi: usize) -> (s: String)
    requires
        lo <= hi <= v.len(),
    ensures
        s@ == v@.subrange(lo as int, hi as int),
{
    let sub = slice_chars(v, lo, hi);
    string_of(&sub)
}

/// A fresh vector holding `v[lo..hi]`.
pub fn slice_chars(v: &Vec<char>, lo: usize, hi: usize) -> (r: Vec<char>)
    requires
        lo <= hi <= v.len(),
    ensures
        r@ == v@.subrange(lo as int, hi as int),
{
    let mut r: Vec<char> = Vec::new();
    let mut i = lo;
    while i < hi
        invariant
            lo <= i <= hi <= v.len(),
            r@ == v@.subrange(lo as int, i as int),
        decreases hi - i,
    {
        r.push(v[i]);
        i += 1;
        assert(r@ =~= v@.subrange(lo as int, i as int));
    }
    r
}

/// Appends every character of `src` to `dst`.
pub fn push_all(dst: &mut Vec<char>, src: &Vec<char>)
    ensures
        final(dst)@ == old(dst)@ + src@,
{
    let mut i: usize = 0;
    while i < src.len()
        invariant
            i <= src.len(),
            dst@ == old(dst)@ + src@.take(i as int),
        decreases src.len() - i,
    {
        dst.push(src[i]);
        i += 1;
        assert(dst@ =~= old(dst)@ + src@.take(i as int));
    }
    assert(src@.take(src.len() as int) =~= src@);
}

/// Two character vectors hold the same characters.
pub fn chars_eq(a: &Vec<char>, b: &Vec<char>) -> (r: bool)
    ensures
        r == (a@ == b@),
{
    if a.len() != b.len() {
        return false;
    }
    let mut i: usize = 0;
    while i < a.len()
        invariant
            a.len() == b.len(),
            i <= a.len(),
            forall|j: int| 0 <= j < i ==> a@[j] == b@[j],
        decreases a.len() - i,
    {
        if a[i] != b[i] {
            return false;
        }
        i += 1;
    }
    assert(a@ =~= b@);
    true
}

// ---------------------------------------------------------------------
// Sequence predicates used in contracts
// ---------------------------------------------------------------------

pub open spec fn starts_with(s: Seq<char>, p: Seq<char>) -> bool {
    p.len() <= s.len() && s.take(p.len() as int) == p
}

pub open spec fn ends_with(s: Seq<char>, p: Seq<char>) -> bool {
    p.len() <= s.len() && s.skip(s.len() - p.len()) == p
}

/// `p` occurs in `s` at position `i`.
pub open spec fn occurs_at(s: Seq<char>, p: Seq<char>, i: int) -> bool {
    0 <= i && i + p.len() <= s.len() && s.subrange(i, i + p.len()) == p
}

pub open spec fn contains_seq(s: Seq<char>, p: Seq<char>) -> bool {
    exists|i: int| occurs_at(s, p, i)
}

pub open spec fn all_chars(s: Seq<char>, c: char) -> bool {
    forall|i: int| 0 <= i < s.len() ==> s[i] == c
}

/// Whether `v` starts with the characters of `p`.
pub fn vec_starts_with(v: &Vec<char>, p: &Vec<char>) -> (r: bool)
    ensures
        r == starts_with(v@, p@),
{
    if p.len() > v.len() {
        return false;
    }
    let mut i: usize = 0;
    while i < p.len()
        invariant
            p.len() <= v.len(),
            i <= p.len(),
            forall|j: int| 0 <= j < i ==> v@[j] == p@[j],
        decreases p.len() - i,
    {
        if v[i] != p[i] {
            assert(v@.take(p.len() as int)[i as int] != p@[i as int]);
            return false;
        }
        i += 1;
    }
    assert(v@.take(p.len() as int) =~= p@);
    true
}

/// Whether `v` ends with the characters of `p`.
pub fn vec_ends_with(v: &Vec<char>, p: &Vec<char>) -> (r: bool)
    ensures
        r == ends_with(v@, p@),
{
    if p.len() > v.len() {
        return false;
    }
    let off = v.len() - p.len();
    let mut i: usize = 0;
    while i < p.len()
        invariant
            p.len() <= v.len(),
            off == v.len() - p.len(),
            i <= p.len(),
            forall|j: int| 0 <= j < i ==> v@[off + j] == p@[j],
        decreases p.len() - i,
    {
        if v[off + i] != p[i] {
            assert(v@.skip(off as int)[i as int] != p@[i as int]);
            return false;
        }
        i += 1;
    }
    assert(v@.skip(off as int) =~= p@);
    true
}

/// Whether `p` occurs in `v` at position `i`.
pub fn vec_occurs_at(v: &Vec<char>, p: &Vec<char>, i: usize) -> (r: bool)
    ensures
        r == occurs_at(v@, p@, i as int),
{
    if i > v.len() || p.len() > v.len() - i {
        return false;
    }
    let mut k: usize = 0;
    while k < p.len()
        invariant
            i + p.len() <= v.len(),
            k <= p.len(),
            forall|j: int| 0 <= j < k ==> v@[i + j] == p@[j],
        decreases p.len() - k,
    {
        if v[i + k] != p[k] {
            assert(v@.subrange(i as int, i + p.len())[k as int] != p@[k as int]);
            return false;
        }
        k += 1;
    }
    assert(v@.subrange(i as int, i + p.len()) =~= p@);
    true
}

/// Whether `p` occurs anywhere in `v`.
pub fn vec_contains(v: &Vec<char>, p: &Vec<char>) -> (r: bool)
    ensures
        r == contains_seq(v@, p@),
{
    if p.len() > v.len() {
        return false;
    }
    let mut i: usize = 0;
    while i <= v.len() && p.len() <= v.len() - i
        invariant
            p.len() <= v.len(),
            i <= v.len(),
            forall|j: int| 0 <= j < i ==> !occurs_at(v@, p@, j),
        decreases v.len() - i,
    {
        if vec_occurs_at(v, p, i) {
            return true;
        }
        if i == v.len() {
            assert(v@.subrange(i as int, i as int) =~= p@);
            return true;
        }
        i += 1;
    }
    assert forall|j: int| !occurs_at(v@, p@, j) by {
        if 0 <= j && j + p.len() <= v.len() {
        }
    }
    false
}

/// Whether `c` occurs in `v`.
pub fn vec_has_char(v: &Vec<char>, c: char) -> (r: bool)
    ensures
        r == v@.contains(c),
{
    let mut i: usize = 0;
    while i < v.len()
        invariant
            i <= v.len(),
            forall|j: int| 0 <= j < i ==> v@[j] != c,
        decreases v.len() - i,
    {
        if v[i] == c {
            return true;
        }
        i += 1;
    }
    false
}

// ---------------------------------------------------------------------
// ASCII classes
// ---------------------------------------------------------------------

pub open spec fn is_digit(c: char) -> bool {
    '0' <= c <= '9'
}

pub open spec fn is_lower(c: char) -> bool {
    'a' <= c <= 'z'
}

pub open spec fn is_upper(c: char) -> bool {
    'A' <= c <= 'Z'
}

pub open spec fn is_alpha(c: char) -> bool {
    is_lower(c) || is_upper(c)
}

pub open spec fn is_alnum(c: char) -> bool {
    is_alpha(c) || is_digit(c)
}

/// ASCII space or tab.
pub open spec fn is_blank(c: char) -> bool {
    c == ' ' || c == '\t'
}

pub fn ascii_digit(c: char) -> (r: bool)
    ensures
        r == is_digit(c),
{
    '0' <= c && c <= '9'
}

pub fn ascii_lower(c: char) -> (r: bool)
    ensures
        r == is_lower(c),
{
    'a' <= c && c <= 'z'
}

pub fn ascii_upper(c: char) -> (r: bool)
    ensures
        r == is_upper(c),
{
    'A' <= c && c <= 'Z'
}

pub fn ascii_alnum(c: char) -> (r: bool)
    ensures
        r == is_alnum(c),
{
    ascii_lower(c) || ascii_upper(c) || ascii_digit(c)
}

/// `char::is_ascii_punctuation`: the 32 ASCII punctuation and symbol
/// characters `!"#$%&'()*+,-./:;<=>?@[\]^_`{|}~`.
pub open spec fn is_ascii_punct(c: char) -> bool {
    ('!' <= c <= '/') || (':' <= c <= '@') || ('[' <= c <= '`') || ('{' <= c <= '~')
}

pub fn ascii_punct(c: char) -> (r: bool)
    ensures
        r == is_ascii_punct(c),
{
    ('!' <= c && c <= '/') || (':' <= c && c <= '@') || ('[' <= c && c <= '`') || ('{' <= c
        && c <= '~')
}

// ---------------------------------------------------------------------
// Unicode classes of std
// ---------------------------------------------------------------------

/// The Unicode `White_Space` property (PropList.txt).
pub open spec fn is_white_space(c: char) -> bool {
    ('\u{9}' <= c <= '\u{d}') || c == ' ' || c == '\u{85}' || c == '\u{a0}' || c == '\u{1680}'
        || ('\u{2000}' <= c <= '\u{200a}') || c == '\u{2028}' || c == '\u{2029}' || c
        == '\u{202f}' || c == '\u{205f}' || c == '\u{3000}'
}

/// Whether `c` has the Unicode `White_Space` property (as
/// `char::is_whitespace` decides it).
pub(crate) fn is_whitespace(c: char) -> (r: bool)
    ensures
        r == is_white_space(c),
{
    ('\u{9}' <= c && c <= '\u{d}') || c == ' ' || c == '\u{85}' || c == '\u{a0}' || c == '\u{1680}'
        || ('\u{2000}' <= c && c <= '\u{200a}') || c == '\u{2028}' || c == '\u{2029}' || c == '\u{202f}'
        || c == '\u{205f}' || c == '\u{3000}'
}

/// General category `Cc`: U+0000..U+001F and U+007F..U+009F.
pub open spec fn is_control_char(c: char) -> bool {
    (c as u32) <= 0x1f || (0x7f <= (c as u32) <= 0x9f)
}

/// Whether `c` is in general category `Cc` (as `char::is_control`
/// decides it).
pub(crate) fn is_control(c: char) -> (r: bool)
    ensures
        r == is_control_char(c),
{
    let n = c as u32;
    n <= 0x1f || (0x7f <= n && n <= 0x9f)
}

/// What `char::is_alphanumeric` returns (`Alphabetic` or `Numeric`).
pub uninterp spec fn unicode_alphanumeric(c: char) -> bool;

/// `char::is_alphanumeric`: the result is `unicode_alphanumeric(c)`; for an
/// ASCII character it is true exactly for letters and digits.
#[verifier::external_body]
pub(crate) fn is_alphanumeric(c: char) -> (r: bool)
    ensures
        r == unicode_alphanumeric(c),
        (c as u32) < 128 ==> (r <==> is_alnum(c)),
{
    c.is_alphanumeric()
}

/// What `char::to_lowercase` yields for a character.
pub uninterp spec fn char_lowercase(c: char) -> Seq<char>;

/// `char::to_lowercase`, collected: the result is `char_lowercase(c)`; an
/// ASCII upper-case letter maps to its lower-case letter and any other
/// ASCII character to itself.
#[verifier::external_body]
pub(crate) fn to_lowercase_char(c: char) -> (r: Vec<char>)
    ensures
        r@ == char_lowercase(c),
        is_upper(c) ==> r@ == seq![((c as u32) + 32) as char],
        (c as u32) < 128 && !is_upper(c) ==> r@ == seq![c],
{
    c.to_lowercase().collect()
}

/// What `str::to_lowercase` returns for a string.
pub uninterp spec fn str_lowercase(s: Seq<char>) -> Seq<char>;

/// ASCII lower-casing of one character.
pub open spec fn ascii_lowered(c: char) -> char {
    if is_upper(c) {
        ((c as u32) + 32) as char
    } else {
        c
    }
}

/// `str::to_lowercase`: the result is `str_lowercase(s)`; on ASCII text each
/// upper-case letter becomes its lower-case letter and every other character
/// stays. (The string form differs from the per-character mapping for a
/// word-final capital sigma.)
#[verifier::external_body]
pub(crate) fn to_lowercase_str(s: &str) -> (r: String)
    ensures
        r@ == str_lowercase(s@),
        (forall|i: int| 0 <= i < s@.len() ==> (s@[i] as u32) < 128) ==> r@ == Seq::new(
            s@.len(),
            |i: int| ascii_lowered(s@[i]),
        ),
{
    s.to_lowercase()
}

// ---------------------------------------------------------------------
// Trimming
// ---------------------------------------------------------------------

/// Number of leading `White_Space` characters.
pub open spec fn lead_ws(s: Seq<char>) -> nat
    decreases s.len(),
{
    if s.len() > 0 && is_white_space(s[0]) {
        1 + lead_ws(s.drop_first())
    } else {
        0
    }
}

/// Number of trailing `White_Space` characters.
pub open spec fn trail_ws(s: Seq<char>) -> nat
    decreases s.len(),
{
    if s.len() > 0 && is_white_space(s.last()) {
        1 + trail_ws(s.drop_last())
    } else {
        0
    }
}

/// `str::trim_start`.
pub open spec fn trim_start(s: Seq<char>) -> Seq<char> {
    s.skip(lead_ws(s) as int)
}

/// `str::trim_end`.
pub open spec fn trim_end(s: Seq<char>) -> Seq<char> {
    s.take(s.len() - trail_ws(s))
}

/// `str::trim`.
pub open spec fn trim(s: Seq<char>) -> Seq<char> {
    trim_end(trim_start(s))
}

pub proof fn lemma_lead_ws_bound(s: Seq<char>)
    ensures
        lead_ws(s) <= s.len(),
        lead_ws(s) < s.len() ==> !is_white_space(s[lead_ws(s) as int]),
        forall|i: int| 0 <= i < lead_ws(s) ==> is_white_space(#[trigger] s[i]),
    decreases s.len(),
{
    if s.len() > 0 && is_white_space(s[0]) {
        lemma_lead_ws_bound(s.drop_first());
        assert forall|i: int| 0 <= i < lead_ws(s) implies is_white_space(#[trigger] s[i]) by {
            if i > 0 {
                assert(s[i] == s.drop_first()[i - 1]);
            }
        }
    }
}

pub proof fn lemma_trail_ws_bound(s: Seq<char>)
    ensures
        trail_ws(s) <= s.len(),
        trail_ws(s) < s.len() ==> !is_white_space(s[s.len() - trail_ws(s) - 1]),
        forall|i: int| s.len() - trail_ws(s) <= i < s.len() ==> is_white_space(#[trigger] s[i]),
    decreases s.len(),
{
    if s.len() > 0 && is_white_space(s.last()) {
        lemma_trail_ws_bound(s.drop_last());
        assert forall|i: int| s.len() - trail_ws(s) <= i < s.len() implies is_white_space(
            #[trigger] s[i],
        ) by {
            if i < s.len() - 1 {
                assert(s[i] == s.drop_last()[i]);
            }
        }
    }
}

/// Leading-whitespace count of `v[lo..]`.
proof fn lemma_lead_ws_step(s: Seq<char>, i: int)
    requires
        0 <= i < s.len(),
        is_white_space(s[i]),
    ensures
        lead_ws(s.skip(i)) == 1 + lead_ws(s.skip(i + 1)),
{
    assert(s.skip(i).drop_first() =~= s.skip(i + 1));
}

proof fn lemma_trail_ws_step(s: Seq<char>, j: int)
    requires
        0 < j <= s.len(),
        is_white_space(s[j - 1]),
    ensures
        trail_ws(s.take(j)) == 1 + trail_ws(s.take(j - 1)),
{
    assert(s.take(j).drop_last() =~= s.take(j - 1));
}

/// Bounds `[lo, hi)` of `v` with the leading and trailing whitespace cut.
pub fn trim_bounds(v: &Vec<char>) -> (r: (usize, usize))
    ensures
        r.0 <= r.1 <= v.len(),
        v@.subrange(r.0 as int, r.1 as int) == trim(v@),
{
    let mut lo: usize = 0;
    assert(v@.skip(0) =~= v@);
    while lo < v.len() && is_whitespace(v[lo])
        invariant
            lo <= v.len(),
            lead_ws(v@) == lo + lead_ws(v@.skip(lo as int)),
        decreases v.len() - lo,
    {
        proof {
            lemma_lead_ws_step(v@, lo as int);
        }
        lo += 1;
    }
    proof {
        assert(v@.skip(0) =~= v@);
        if lo < v.len() {
            assert(v@.skip(lo as int)[0] == v@[lo as int]);
        }
    }
    let ghost t = v@.skip(lo as int);
    assert(t == trim_start(v@));
    let mut hi: usize = v.len();
    assert(t.take(hi - lo) =~= t);
    while hi > lo && is_whitespace(v[hi - 1])
        invariant
            lo <= hi <= v.len(),
            t == v@.skip(lo as int),
            trail_ws(t) == (v.len() - hi) + trail_ws(t.take(hi - lo)),
        decreases hi - lo,
    {
        proof {
            assert(t[hi - lo - 1] == v@[hi - 1]);
            lemma_trail_ws_step(t, hi - lo);
        }
        hi -= 1;
    }
    proof {
        assert(t.take(t.len() as int) =~= t);
        if hi > lo {
            assert(t.take(hi - lo).last() == v@[hi - 1]);
        }
        assert(v@.subrange(lo as int, hi as int) =~= t.take(t.len() - trail_ws(t)));
    }
    (lo, hi)
}

/// Length of `v` once trailing whitespace is cut.
pub fn trim_end_len(v: &Vec<char>) -> (hi: usize)
    ensures
        hi <= v.len(),
        v@.take(hi as int) == trim_end(v@),
{
    let mut hi: usize = v.len();
    assert(v@.take(hi as int) =~= v@);
    while hi > 0 && is_whitespace(v[hi - 1])
        invariant
            hi <= v.len(),
            trail_ws(v@) == (v.len() - hi) + trail_ws(v@.take(hi as int)),
        decreases hi,
    {
        proof {
            lemma_trail_ws_step(v@, hi as int);
        }
        hi -= 1;
    }
    proof {
        if hi > 0 {
            assert(v@.take(hi as int).last() == v@[hi - 1]);
        }
    }
    hi
}

/// `v` with leading and trailing whitespace removed.
pub fn trim_vec(v: &Vec<char>) -> (r: Vec<char>)
    ensures
        r@ == trim(v@),
{
    let (lo, hi) = trim_bounds(v);
    slice_chars(v, lo, hi)
}

// ---------------------------------------------------------------------
// Decimal rendering
// ---------------------------------------------------------------------

pub open spec fn digit_char(d: nat) -> char {
    (('0' as u32) + d) as char
}

/// Decimal digits of `n`, most significant first, no leading zeros.
pub open spec fn decimal(n: nat) -> Seq<char>
    decreases n,
{
    if n < 10 {
        seq![digit_char(n)]
    } else {
        decimal(n / 10).push(digit_char(n % 10))
    }
}

/// Decimal rendering of `n` (what `format!("{}", n)` writes).
pub fn decimal_of(n: u64) -> (r: Vec<char>)
    ensures
        r@ == decimal(n as nat),
    decreases n,
{
    if n < 10 {
        let c = char_of_digit(n);
        let mut r: Vec<char> = Vec::new();
        r.push(c);
        r
    } else {
        let mut r = decimal_of(n / 10);
        let c = char_of_digit(n % 10);
        r.push(c);
        r
    }
}

fn char_of_digit(d: u64) -> (c: char)
    requires
        d < 10,
    ensures
        c == digit_char(d as nat),
{
    if d == 0 {
        '0'
    } else if d == 1 {
        '1'
    } else if d == 2 {
        '2'
    } else if d == 3 {
        '3'
    } else if d == 4 {
        '4'
    } else if d == 5 {
        '5'
    } else if d == 6 {
        '6'
    } else if d == 7 {
        '7'
    } else if d == 8 {
        '8'
    } else {
        '9'
    }
}

} // verus!
