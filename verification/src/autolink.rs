//! GFM extended e-mail autolinks: `local@domain` inside plain text becomes
//! a `mailto:` link.

use vstd::prelude::*;
use crate::ast::{clone_span, lemma_nvs_index, lemma_nvs_len, nvs, Link, Node, NodeV, Span, Text};
use crate::emphasis::{retext, DelimRecord, EmphasisChar};
use crate::inline::{unescape_chars, unescaped};
use crate::text::{
    all_chars, ascii_alnum, chars_of, ends_with, is_alnum, push_all, slice_chars, string_of, vec_ends_with,
};

verus! {

broadcast use lemma_nvs_len, lemma_nvs_index;

/// A character of an e-mail local part: ASCII letter or digit, `.`, `_`,
/// `+`, `-`.
pub open spec fn email_local(c: char) -> bool {
    is_alnum(c) || c == '.' || c == '_' || c == '+' || c == '-'
}

/// A character of a domain label: ASCII letter or digit, `-`, `_`.
pub open spec fn email_domain(c: char) -> bool {
    is_alnum(c) || c == '-' || c == '_'
}

/// Start of the run of local-part characters that ends at `k`.
pub open spec fn local_from(s: Seq<char>, k: int) -> int
    decreases k,
{
    if k > 0 && k <= s.len() && email_local(s[k - 1]) {
        local_from(s, k - 1)
    } else {
        k
    }
}

/// End of the run of domain characters and dots that starts at `k`.
pub open spec fn domain_to(s: Seq<char>, k: int) -> int
    decreases s.len() - k,
{
    if 0 <= k < s.len() && (email_domain(s[k]) || s[k] == '.') {
        domain_to(s, k + 1)
    } else {
        k
    }
}

/// `d` without its trailing dots (sentence punctuation after an address).
pub open spec fn trim_dots(d: Seq<char>) -> Seq<char>
    decreases d.len(),
{
    if d.len() > 0 && d.last() == '.' {
        trim_dots(d.drop_last())
    } else {
        d
    }
}

/// A domain of at least two non-empty dot-separated labels whose last label
/// does not end with `-` or `_`.
pub open spec fn domain_ok(d: Seq<char>) -> bool {
    &&& d.len() > 0
    &&& exists|k: int| 0 <= k < d.len() && d[k] == '.'
    &&& d[0] != '.'
    &&& d.last() != '.' && d.last() != '-' && d.last() != '_'
    &&& forall|k: int| 0 <= k < d.len() - 1 ==> !(d[k] == '.' && #[trigger] d[k + 1] == '.')
}

/// The local part and domain of the address around the `@` at `i`, when
/// they form one.
pub open spec fn email_at(s: Seq<char>, i: int) -> Option<(Seq<char>, Seq<char>)> {
    let local = s.subrange(local_from(s, i), i);
    let domain = trim_dots(s.subrange(i + 1, domain_to(s, i + 1)));
    if local.len() > 0 && domain_ok(domain) {
        Some((local, domain))
    } else {
        None
    }
}

pub open spec fn mailto() -> Seq<char> {
    seq!['m', 'a', 'i', 'l', 't', 'o', ':']
}

/// The link node of one address.
pub open spec fn email_link(local: Seq<char>, domain: Seq<char>, span: Span) -> NodeV {
    let email = local + seq!['@'] + domain;
    NodeV::Link(mailto() + email, None, seq![NodeV::Text(email, span)], span)
}

/// `acc` with the pending text (unescaped) appended, if there is any.
pub open spec fn flush_text(acc: Seq<NodeV>, text: Seq<char>, span: Span) -> Seq<NodeV> {
    if text.len() == 0 {
        acc
    } else {
        acc.push(NodeV::Text(unescaped(text), span))
    }
}

/// The scan from `i` on, with pending text `text`, nodes `acc` so far, and
/// whether an address was found: at an `@` that ends a local part and starts
/// a valid domain, the local part leaves the pending text (when it ends it)
/// and the link is added; every other character joins the pending text.
pub open spec fn email_scan(s: Seq<char>, i: int, text: Seq<char>, acc: Seq<NodeV>, found: bool, span: Span) -> (
    Seq<NodeV>,
    bool,
)
    decreases s.len() - i,
{
    if i < 0 || i >= s.len() {
        (flush_text(acc, text, span), found)
    } else if s[i] == '@' && email_at(s, i) is Some {
        let (local, domain) = email_at(s, i)->0;
        proof {
            lemma_domain_to(s, i + 1);
            lemma_trim_dots(s, i + 1, domain_to(s, i + 1));
        }
        let kept = if ends_with(text, local) {
            text.subrange(0, text.len() - local.len())
        } else {
            text
        };
        email_scan(
            s,
            i + 1 + domain.len(),
            Seq::empty(),
            flush_text(acc, kept, span).push(email_link(local, domain, span)),
            true,
            span,
        )
    } else {
        email_scan(s, i + 1, text.push(s[i]), acc, found, span)
    }
}

pub proof fn lemma_domain_to(s: Seq<char>, k: int)
    requires
        0 <= k <= s.len(),
    ensures
        k <= domain_to(s, k) <= s.len(),
    decreases s.len() - k,
{
    if k < s.len() && (email_domain(s[k]) || s[k] == '.') {
        lemma_domain_to(s, k + 1);
    }
}

pub proof fn lemma_trim_dots(s: Seq<char>, lo: int, hi: int)
    requires
        0 <= lo <= hi <= s.len(),
    ensures
        exists|k: int| lo <= k <= hi && trim_dots(s.subrange(lo, hi)) == s.subrange(lo, k),
    decreases hi - lo,
{
    let d = s.subrange(lo, hi);
    if d.len() > 0 && d.last() == '.' {
        assert(d.drop_last() =~= s.subrange(lo, hi - 1));
        lemma_trim_dots(s, lo, hi - 1);
    } else {
        assert(trim_dots(d) == s.subrange(lo, hi));
    }
}

/// An ASCII letter or digit, written out.
pub open spec fn ascii_letter_or_digit(c: char) -> bool {
    ('a' <= c <= 'z') || ('A' <= c <= 'Z') || ('0' <= c <= '9')
}

/// A local part over `[A-Za-z0-9._+-]`.
pub open spec fn plain_local(l: Seq<char>) -> bool {
    l.len() > 0 && forall|i: int|
        0 <= i < l.len() ==> (ascii_letter_or_digit(#[trigger] l[i]) || l[i] == '.' || l[i] == '_' || l[i] == '+'
            || l[i] == '-')
}

/// A domain over `[A-Za-z0-9._-]` of at least two non-empty labels, not
/// ending with `.`, `-` or `_`.
pub open spec fn plain_domain(d: Seq<char>) -> bool {
    &&& d.len() > 0
    &&& forall|i: int|
        0 <= i < d.len() ==> (ascii_letter_or_digit(#[trigger] d[i]) || d[i] == '.' || d[i] == '_' || d[i] == '-')
    &&& exists|k: int| 0 <= k < d.len() && d[k] == '.'
    &&& d[0] != '.'
    &&& d.last() != '.' && d.last() != '-' && d.last() != '_'
    &&& forall|k: int| 0 <= k < d.len() - 1 ==> !(d[k] == '.' && #[trigger] d[k + 1] == '.')
}

proof fn lemma_local_from_all(s: Seq<char>, l: Seq<char>, k: int)
    requires
        plain_local(l),
        0 <= k <= l.len(),
        l.len() < s.len(),
        s.take(l.len() as int) == l,
    ensures
        local_from(s, k) == 0,
    decreases k,
{
    if k > 0 {
        assert(s[k - 1] == l[k - 1]);
        lemma_local_from_all(s, l, k - 1);
    }
}

proof fn lemma_domain_to_all(s: Seq<char>, start: int, k: int)
    requires
        0 <= start <= k <= s.len(),
        forall|i: int|
            start <= i < s.len() ==> (ascii_letter_or_digit(#[trigger] s[i]) || s[i] == '.' || s[i] == '_' || s[i]
                == '-'),
    ensures
        domain_to(s, k) == s.len(),
    decreases s.len() - k,
{
    if k < s.len() {
        lemma_domain_to_all(s, start, k + 1);
    }
}

proof fn lemma_scan_local(s: Seq<char>, l: Seq<char>, i: int, span: Span)
    requires
        plain_local(l),
        0 <= i <= l.len(),
        l.len() < s.len(),
        s.take(l.len() as int) == l,
    ensures
        email_scan(s, i, l.take(i), Seq::empty(), false, span) == email_scan(
            s,
            l.len() as int,
            l,
            Seq::empty(),
            false,
            span,
        ),
    decreases l.len() - i,
{
    if i < l.len() {
        assert(s[i] == l[i]);
        assert(s[i] != '@');
        assert(l.take(i).push(s[i]) =~= l.take(i + 1));
        lemma_scan_local(s, l, i + 1, span);
    } else {
        assert(l.take(i) =~= l);
    }
}

/// Every address whose local part is over `[A-Za-z0-9._+-]` and whose
/// domain is valid is kept whole: the text `local@domain` is one
/// `mailto:` link showing the address.
pub proof fn law_whole_address_links(l: Seq<char>, d: Seq<char>, span: Span)
    ensures
        plain_local(l) && plain_domain(d) ==> email_scan(l + seq!['@'] + d, 0, Seq::empty(), Seq::empty(), false, span)
            == (seq![email_link(l, d, span)], true),
{
    if plain_local(l) && plain_domain(d) {
        let s = l + seq!['@'] + d;
        let n = l.len() as int;
        assert(s.take(n) =~= l);
        assert(s[n] == '@');
        lemma_local_from_all(s, l, n);
        assert forall|i: int| n + 1 <= i < s.len() implies (ascii_letter_or_digit(#[trigger] s[i]) || s[i] == '.'
            || s[i] == '_' || s[i] == '-') by {
            assert(s[i] == d[i - n - 1]);
        }
        lemma_domain_to_all(s, n + 1, n + 1);
        assert(s.subrange(n + 1, s.len() as int) =~= d);
        assert(trim_dots(d) == d);
        assert(s.subrange(0, n) =~= l);
        assert(domain_ok(d));
        assert(email_at(s, n) == Some((l, d)));
        lemma_scan_local(s, l, 0, span);
        assert(l.take(0) =~= Seq::<char>::empty());
        assert(ends_with(l, l)) by {
            assert(l.skip(0) =~= l);
        }
        assert(l.subrange(0, 0) =~= Seq::<char>::empty());
        let acc = flush_text(Seq::empty(), Seq::empty(), span).push(email_link(l, d, span));
        assert(acc =~= seq![email_link(l, d, span)]);
        assert(n + 1 + d.len() == s.len());
        assert(email_scan(s, n, l, Seq::empty(), false, span) == email_scan(s, s.len() as int, Seq::empty(), acc, true, span));
        assert(email_scan(s, s.len() as int, Seq::empty(), acc, true, span) == (acc, true));
    }
}

proof fn lemma_scan_prefix(s: Seq<char>, q: Seq<char>, i: int, span: Span)
    requires
        0 <= i <= q.len(),
        q.len() < s.len(),
        s.take(q.len() as int) == q,
        forall|k: int| 0 <= k < q.len() ==> #[trigger] q[k] != '@',
    ensures
        email_scan(s, i, q.take(i), Seq::empty(), false, span) == email_scan(
            s,
            q.len() as int,
            q,
            Seq::empty(),
            false,
            span,
        ),
    decreases q.len() - i,
{
    if i < q.len() {
        assert(s[i] == q[i]);
        assert(q.take(i).push(s[i]) =~= q.take(i + 1));
        lemma_scan_prefix(s, q, i + 1, span);
    } else {
        assert(q.take(i) =~= q);
    }
}

/// Text before an address stays text: after a prefix `p` (no `@`, no `\`)
/// that ends with a character no local part holds, `p` followed by a whole
/// address gives the text `p` and then the address's link.
pub proof fn law_text_then_address(p: Seq<char>, l: Seq<char>, d: Seq<char>, span: Span)
    ensures
        (p.len() > 0 && (forall|k: int| 0 <= k < p.len() ==> #[trigger] p[k] != '@' && p[k] != '\\') && !(
        ascii_letter_or_digit(p.last()) || p.last() == '.' || p.last() == '_' || p.last() == '+' || p.last() == '-')
            && plain_local(l) && plain_domain(d)) ==> email_scan(
            p + l + seq!['@'] + d,
            0,
            Seq::empty(),
            Seq::empty(),
            false,
            span,
        ) == (seq![NodeV::Text(p, span), email_link(l, d, span)], true),
{
    if p.len() > 0 && (forall|k: int| 0 <= k < p.len() ==> #[trigger] p[k] != '@' && p[k] != '\\') && !(
    ascii_letter_or_digit(p.last()) || p.last() == '.' || p.last() == '_' || p.last() == '+' || p.last() == '-')
        && plain_local(l) && plain_domain(d) {
        let q = p + l;
        let s = q + seq!['@'] + d;
        let n = q.len() as int;
        assert(s =~= p + l + seq!['@'] + d);
        assert(s.take(n) =~= q);
        assert(s[n] == '@');
        assert forall|k: int| 0 <= k < q.len() implies #[trigger] q[k] != '@' by {
            if k < p.len() {
                assert(q[k] == p[k]);
            } else {
                assert(q[k] == l[k - p.len()]);
            }
        }
        let sl = s.subrange(p.len() as int, s.len() as int);
        assert(local_from(s, n) == p.len()) by {
            lemma_local_from_suffix(s, p, l, n);
        }
        assert forall|i: int| n + 1 <= i < s.len() implies (ascii_letter_or_digit(#[trigger] s[i]) || s[i] == '.'
            || s[i] == '_' || s[i] == '-') by {
            assert(s[i] == d[i - n - 1]);
        }
        lemma_domain_to_all(s, n + 1, n + 1);
        assert(s.subrange(n + 1, s.len() as int) =~= d);
        assert(s.subrange(p.len() as int, n) =~= l);
        assert(domain_ok(d));
        assert(email_at(s, n) == Some((l, d)));
        lemma_scan_prefix(s, q, 0, span);
        assert(q.take(0) =~= Seq::<char>::empty());
        assert(ends_with(q, l)) by {
            assert(q.skip(q.len() - l.len()) =~= l);
        }
        assert(q.subrange(0, q.len() - l.len()) =~= p);
        assert(!p.contains('\\'));
        crate::inline::law_unescape_without_backslash(p, 0);
        assert(p.skip(0) =~= p);
        let acc = flush_text(Seq::empty(), p, span).push(email_link(l, d, span));
        assert(acc =~= seq![NodeV::Text(p, span), email_link(l, d, span)]);
        assert(n + 1 + d.len() == s.len());
        assert(email_scan(s, n, q, Seq::empty(), false, span) == email_scan(s, s.len() as int, Seq::empty(), acc, true, span));
        assert(email_scan(s, s.len() as int, Seq::empty(), acc, true, span) == (acc, true));
    }
}

proof fn lemma_local_from_suffix(s: Seq<char>, p: Seq<char>, l: Seq<char>, k: int)
    requires
        plain_local(l),
        p.len() > 0,
        !(ascii_letter_or_digit(p.last()) || p.last() == '.' || p.last() == '_' || p.last() == '+' || p.last() == '-'),
        p.len() <= k <= p.len() + l.len(),
        p.len() + l.len() < s.len(),
        s.take(p.len() + l.len() as int) == p + l,
    ensures
        local_from(s, k) == p.len(),
    decreases k,
{
    if k > p.len() {
        assert(s[k - 1] == (p + l)[k - 1]);
        assert((p + l)[k - 1] == l[k - 1 - p.len()]);
        lemma_local_from_suffix(s, p, l, k - 1);
    } else {
        assert(s[k - 1] == (p + l)[k - 1]);
        assert((p + l)[k - 1] == p.last());
    }
}

fn is_local_char(c: char) -> (r: bool)
    ensures
        r == email_local(c),
{
    ascii_alnum(c) || c == '.' || c == '_' || c == '+' || c == '-'
}

fn is_domain_char(c: char) -> (r: bool)
    ensures
        r == email_domain(c),
{
    ascii_alnum(c) || c == '-' || c == '_'
}

/// Whether `d` is a valid domain.
fn check_domain(d: &Vec<char>) -> (r: bool)
    ensures
        r == domain_ok(d@),
{
    let n = d.len();
    if n == 0 || d[0] == '.' || d[n - 1] == '.' || d[n - 1] == '-' || d[n - 1] == '_' {
        return false;
    }
    let mut dot = false;
    let mut k: usize = 0;
    while k < n
        invariant
            k <= n == d@.len(),
            dot <==> exists|j: int| 0 <= j < k && d@[j] == '.',
            forall|j: int| 0 <= j < k && j + 1 < n ==> !(d@[j] == '.' && #[trigger] d@[j + 1] == '.'),
        decreases n - k,
    {
        if d[k] == '.' {
            if k + 1 < n && d[k + 1] == '.' {
                return false;
            }
            dot = true;
        }
        k += 1;
    }
    dot
}

/// The address around the `@` at `i`, as the end of the local part's run
/// start, and the trimmed domain's end.
fn find_email_at(s: &Vec<char>, i: usize) -> (r: Option<(usize, usize)>)
    requires
        i < s.len(),
    ensures
        match r {
            Some((ls, de)) => ls <= i < de <= s.len() && email_at(s@, i as int) == Some(
                (s@.subrange(ls as int, i as int), s@.subrange(i + 1, de as int)),
            ),
            None => email_at(s@, i as int) is None,
        },
{
    let mut ls = i;
    while ls > 0 && is_local_char(s[ls - 1])
        invariant
            ls <= i < s.len(),
            local_from(s@, i as int) == local_from(s@, ls as int),
        decreases ls,
    {
        ls -= 1;
    }
    let mut de = i + 1;
    while de < s.len() && (is_domain_char(s[de]) || s[de] == '.')
        invariant
            i + 1 <= de <= s.len(),
            domain_to(s@, i + 1) == domain_to(s@, de as int),
        decreases s.len() - de,
    {
        de += 1;
    }
    let mut te = de;
    let ghost raw = s@.subrange(i + 1, de as int);
    while te > i + 1 && s[te - 1] == '.'
        invariant
            i + 1 <= te <= de <= s.len(),
            trim_dots(raw) == trim_dots(s@.subrange(i + 1, te as int)),
        decreases te,
    {
        assert(s@.subrange(i + 1, te as int).drop_last() =~= s@.subrange(i + 1, te - 1));
        te -= 1;
    }
    assert(trim_dots(s@.subrange(i + 1, te as int)) == s@.subrange(i + 1, te as int));
    if ls == i {
        return None;
    }
    let domain = slice_chars(s, i + 1, te);
    if check_domain(&domain) {
        Some((ls, te))
    } else {
        None
    }
}

/// Appends the pending text, unescaped, as one `Text` node when there is any.
fn flush(out: &mut Vec<Node>, text: &Vec<char>, span: &Span)
    ensures
        nvs(final(out)@) == flush_text(nvs(old(out)@), text@, *span),
{
    if text.len() > 0 {
        let u = unescape_chars(text);
        let ghost before = out@;
        out.push(Node::Text(Text { value: string_of(&u), span: clone_span(span) }));
        proof {
            assert(nvs(out@) =~= nvs(before).push(NodeV::Text(unescaped(text@), *span)));
        }
    }
}

/// Splits `s` into plain text and `mailto:` links at every GFM extended
/// e-mail address; `None` when it holds none, so that the caller keeps one
/// plain `Text`.
pub fn split_email_autolinks(s: &str, span: &Span) -> (r: Option<Vec<Node>>)
    ensures
        ({
            let (nodes, found) = email_scan(s@, 0, Seq::empty(), Seq::empty(), false, *span);
            match r {
                Some(v) => found && nvs(v@) == nodes,
                None => !found,
            }
        }),
{
    let v = chars_of(s);
    let n = v.len();
    let mut out: Vec<Node> = Vec::new();
    let mut text: Vec<char> = Vec::new();
    let mut found = false;
    let mut i: usize = 0;
    while i < n
        invariant
            n == v@.len(),
            v@ == s@,
            email_scan(v@, i as int, text@, nvs(out@), found, *span) == email_scan(
                s@,
                0,
                Seq::empty(),
                Seq::empty(),
                false,
                *span,
            ),
        decreases n - i,
    {
        if v[i] == '@' {
            match find_email_at(&v, i) {
                Some((ls, te)) => {
                    let ghost local = v@.subrange(ls as int, i as int);
                    let ghost domain = v@.subrange(i + 1, te as int);
                    let local_v = slice_chars(&v, ls, i);
                    let domain_v = slice_chars(&v, i + 1, te);
                    if vec_ends_with(&text, &local_v) {
                        let keep = text.len() - local_v.len();
                        text = slice_chars(&text, 0, keep);
                    }
                    flush(&mut out, &text, span);
                    let mut email: Vec<char> = Vec::new();
                    push_all(&mut email, &local_v);
                    email.push('@');
                    push_all(&mut email, &domain_v);
                    let mut href: Vec<char> = Vec::new();
                    href.push('m');
                    href.push('a');
                    href.push('i');
                    href.push('l');
                    href.push('t');
                    href.push('o');
                    href.push(':');
                    push_all(&mut href, &email);
                    let ghost before = out@;
                    let label = Node::Text(Text { value: string_of(&email), span: clone_span(span) });
                    let mut children: Vec<Node> = Vec::new();
                    children.push(label);
                    out.push(
                        Node::Link(
                            Link { href: string_of(&href), title: None, children, span: clone_span(span) },
                        ),
                    );
                    proof {
                        assert(email@ =~= local + seq!['@'] + domain);
                        assert(href@ =~= mailto() + (local + seq!['@'] + domain));
                        assert(nvs(children@) =~= seq![NodeV::Text(local + seq!['@'] + domain, *span)]);
                        assert(nvs(out@) =~= nvs(before).push(email_link(local, domain, *span)));
                    }
                    found = true;
                    text = Vec::new();
                    i = te;
                    continue;
                },
                None => {},
            }
        }
        text.push(v[i]);
        i += 1;
    }
    flush(&mut out, &text, span);
    if found {
        Some(out)
    } else {
        None
    }
}

/// Length of the trailing run of local-part characters of `s`.
pub open spec fn trailing_local_chars(s: Seq<char>) -> nat
    decreases s.len(),
{
    if s.len() > 0 && email_local(s.last()) {
        1 + trailing_local_chars(s.drop_last())
    } else {
        0
    }
}

/// The last record below `k` of an unspent `_` run whose placeholder sits at
/// `idx`.
pub open spec fn underscore_run_at(ds: Seq<DelimRecord>, idx: int, k: int) -> Option<int>
    decreases k,
{
    if k <= 0 {
        None
    } else if ds[k - 1].run > 0 && ds[k - 1].out_idx == idx && ds[k - 1].c == EmphasisChar::Underscore {
        Some(k - 1)
    } else {
        underscore_run_at(ds, idx, k - 1)
    }
}

/// The record of an underscore run, spent.
pub open spec fn spent(d: DelimRecord) -> DelimRecord {
    DelimRecord { run: 0, can_open: false, can_close: false, ..d }
}

/// What re-splitting gives when the output ends with a `Text` followed by a
/// placeholder of underscores, an unspent `_` record points at that
/// placeholder, the text ends with local-part characters, and those
/// characters, the underscores and `raw` hold an address: the pieces of
/// that candidate, the output without the placeholder and without the local
/// characters (the text node dropped when nothing else is left of it), and
/// the records with that run spent. `None` otherwise.
pub open spec fn tail_underscore_split(raw: Seq<char>, span: Span, out: Seq<NodeV>, ds: Seq<DelimRecord>) -> Option<
    (Seq<NodeV>, Seq<NodeV>, Seq<DelimRecord>),
> {
    let n = out.len() as int;
    if n < 2 {
        None
    } else {
        match (out[n - 1], out[n - 2]) {
            (NodeV::Text(u, _), NodeV::Text(pv, _)) => {
                let t = trailing_local_chars(pv) as int;
                if u.len() == 0 || !all_chars(u, '_') || t == 0 {
                    None
                } else {
                    match underscore_run_at(ds, n - 1, ds.len() as int) {
                        None => None,
                        Some(m) => {
                            let candidate = pv.subrange(pv.len() - t, pv.len() as int) + u + raw;
                            let (pieces, found) = email_scan(candidate, 0, Seq::empty(), Seq::empty(), false, span);
                            if !found {
                                None
                            } else {
                                let prefix = pv.subrange(0, pv.len() - t);
                                let rest = if prefix.len() == 0 {
                                    out.subrange(0, n - 2)
                                } else {
                                    out.subrange(0, n - 2).push(retext(out[n - 2], prefix))
                                };
                                Some((pieces, rest, ds.update(m, spent(ds[m]))))
                            }
                        },
                    }
                }
            },
            _ => None,
        }
    }
}

/// An underscore run that a lexer cut off an address (`foo_@bar.com`):
/// when the output ends with text and an underscore placeholder that, with
/// `raw_lexeme`, hold an e-mail address, the text's trailing local part and
/// the placeholder leave the output, the run's record is spent, and the
/// re-split pieces are returned. Otherwise nothing changes.
pub fn split_email_autolinks_with_tail_underscore(
    raw_lexeme: &str,
    span: &Span,
    out: &mut Vec<Node>,
    delims: &mut Vec<DelimRecord>,
) -> (r: Option<Vec<Node>>)
    ensures
        match tail_underscore_split(raw_lexeme@, *span, nvs(old(out)@), old(delims)@) {
            Some((pieces, rest, ds)) => r is Some && nvs(r->0@) == pieces && nvs(final(out)@) == rest
                && final(delims)@ == ds,
            None => r is None && final(out)@ == old(out)@ && final(delims)@ == old(delims)@,
        },
{
    let ghost ov = nvs(out@);
    let n = out.len();
    if n < 2 {
        return None;
    }
    let u = match &out[n - 1] {
        Node::Text(t) => {
            proof {
                assert(ov[n - 1] == NodeV::Text(t.value@, t.span));
            }
            chars_of(&t.value)
        },
        _ => {
            return None;
        },
    };
    let pv = match &out[n - 2] {
        Node::Text(t) => {
            proof {
                assert(ov[n - 2] == NodeV::Text(t.value@, t.span));
            }
            chars_of(&t.value)
        },
        _ => {
            return None;
        },
    };
    if u.len() == 0 {
        return None;
    }
    let mut all_underscores = true;
    let mut k: usize = 0;
    while k < u.len()
        invariant
            k <= u.len(),
            all_underscores <==> forall|j: int| 0 <= j < k ==> u@[j] == '_',
        decreases u.len() - k,
    {
        if u[k] != '_' {
            all_underscores = false;
        }
        k += 1;
    }
    if !all_underscores {
        return None;
    }
    let mut ts = pv.len();
    assert(pv@.take(ts as int) =~= pv@);
    while ts > 0 && is_local_char(pv[ts - 1])
        invariant
            ts <= pv@.len(),
            trailing_local_chars(pv@) == (pv@.len() - ts) + trailing_local_chars(pv@.take(ts as int)),
        decreases ts,
    {
        proof {
            assert(pv@.take(ts as int).drop_last() =~= pv@.take(ts - 1));
        }
        ts -= 1;
    }
    proof {
        if ts > 0 {
            assert(pv@.take(ts as int).last() == pv@[ts - 1]);
        }
    }
    if ts == pv.len() {
        return None;
    }
    let mut m = delims.len();
    while m > 0
        invariant
            m <= delims.len(),
            n >= 2,
            underscore_run_at(delims@, n - 1, delims.len() as int) == underscore_run_at(delims@, n - 1, m as int),
        ensures
            m > 0 ==> delims@[m - 1].run > 0 && delims@[m - 1].out_idx == n - 1 && delims@[m - 1].c
                == EmphasisChar::Underscore,
            m == 0 ==> underscore_run_at(delims@, n - 1, delims.len() as int) is None,
        decreases m,
    {
        if delims[m - 1].run > 0 && delims[m - 1].out_idx == n - 1 && delims[m - 1].c == EmphasisChar::Underscore {
            break;
        }
        m -= 1;
    }
    if m == 0 {
        return None;
    }
    let di = m - 1;
    let ghost ds0 = delims@;
    let ghost o0 = out@;
    assert(trailing_local_chars(pv@) == pv@.len() - ts);
    assert(all_chars(u@, '_'));
    let mut candidate = slice_chars(&pv, ts, pv.len());
    push_all(&mut candidate, &u);
    let raw = chars_of(raw_lexeme);
    push_all(&mut candidate, &raw);
    let cand = string_of(&candidate);
    let pieces = match split_email_autolinks(&cand, span) {
        Some(p) => p,
        None => {
            return None;
        },
    };
    assert(candidate@ == pv@.subrange(ts as int, pv@.len() as int) + u@ + raw_lexeme@);
    let prefix = slice_chars(&pv, 0, ts);
    let _ = out.pop();
    if prefix.len() == 0 {
        let _ = out.pop();
    } else {
        let last = out.pop();
        match last {
            Some(Node::Text(t)) => {
                out.push(Node::Text(Text { value: string_of(&prefix), span: t.span }));
            },
            Some(other) => {
                out.push(other);
            },
            None => {},
        }
    }
    proof {
        if prefix@.len() == 0 {
            assert(out@ =~= o0.subrange(0, n - 2));
        } else {
            assert(out@.drop_last() =~= o0.subrange(0, n - 2));
        }
        assert(nvs(out@) =~= if prefix@.len() == 0 {
            ov.subrange(0, n - 2)
        } else {
            ov.subrange(0, n - 2).push(retext(ov[n - 2], prefix@))
        });
    }
    let d = delims.remove(di);
    delims.insert(
        di,
        DelimRecord { c: d.c, run: 0, can_open: false, can_close: false, out_idx: d.out_idx, span: d.span },
    );
    assert(delims@ =~= ds0.update(di as int, spent(ds0[di as int])));
    Some(pieces)
}

} // verus!
