//! Inline-level text helpers: UTF-8 lead bytes, e-mail local-part bytes,
//! backslash escapes, link destinations and titles, the punctuation class
//! used by emphasis flanking, and the plain text and labels of inline
//! content.

use vstd::prelude::*;
use vstd::string::StringSliceAdditionalSpecFns;
use crate::ast::{nv, nvs, Node, NodeV};
use crate::refs::{bare_stop, is_link_space, skip_link_space};
use crate::text::{
    append_str, ascii_alnum, ascii_punct, chars_of, is_alnum, is_ascii_punct, is_white_space, push_all,
    slice_chars, string_of, string_of_range, trim, trim_vec,
};

verus! {

// ---------------------------------------------------------------------
// Bytes
// ---------------------------------------------------------------------

/// Width of the UTF-8 sequence that a leading byte starts.
pub open spec fn utf8_width(b: u8) -> nat {
    if b < 0x80 {
        1
    } else if b < 0xE0 {
        2
    } else if b < 0xF0 {
        3
    } else {
        4
    }
}

pub fn utf8_char_len(b: u8) -> (n: usize)
    ensures
        n == utf8_width(b),
{
    if b < 0x80 {
        1
    } else if b < 0xE0 {
        2
    } else if b < 0xF0 {
        3
    } else {
        4
    }
}

/// A byte of an e-mail local part: ASCII letter or digit, `.`, `_`, `+`, `-`.
pub open spec fn email_local_byte(b: u8) -> bool {
    (97 <= b <= 122) || (65 <= b <= 90) || (48 <= b <= 57) || b == 46 || b == 95 || b == 43 || b
        == 45
}

pub fn is_email_local_byte(b: u8) -> (r: bool)
    ensures
        r == email_local_byte(b),
{
    (97 <= b && b <= 122) || (65 <= b && b <= 90) || (48 <= b && b <= 57) || b == 46 || b == 95
        || b == 43 || b == 45
}

/// Length of the trailing run of e-mail local-part bytes.
pub open spec fn trailing_local(b: Seq<u8>) -> nat
    decreases b.len(),
{
    if b.len() > 0 && email_local_byte(b.last()) {
        1 + trailing_local(b.drop_last())
    } else {
        0
    }
}

/// Byte offset where the trailing run of e-mail local-part characters of
/// `s` starts, or `None` when `s` does not end with one.
pub fn trailing_email_local_suffix_start(s: &str) -> (r: Option<usize>)
    ensures
        trailing_local(s.spec_bytes()) > 0 ==> r == Some(
            (s.spec_bytes().len() - trailing_local(s.spec_bytes())) as usize,
        ),
        trailing_local(s.spec_bytes()) == 0 ==> r is None,
{
    let b = s.as_bytes();
    let mut start = b.len();
    assert(b@.take(start as int) =~= b@);
    while start > 0 && is_email_local_byte(b[start - 1])
        invariant
            start <= b@.len(),
            trailing_local(b@) == (b@.len() - start) + trailing_local(b@.take(start as int)),
        decreases start,
    {
        proof {
            assert(b@.take(start as int).drop_last() =~= b@.take(start - 1));
            assert(b@.take(start as int).last() == b@[start - 1]);
        }
        start -= 1;
    }
    proof {
        if start > 0 {
            assert(b@.take(start as int).last() == b@[start - 1]);
        }
    }
    if start < b.len() {
        Some(start)
    } else {
        None
    }
}

// ---------------------------------------------------------------------
// Backslash escapes
// ---------------------------------------------------------------------

/// `s[i..]` with every backslash escape of an ASCII punctuation character
/// replaced by that character.
pub open spec fn unescape_from(s: Seq<char>, i: int) -> Seq<char>
    decreases s.len() - i,
{
    if i < 0 || i >= s.len() {
        Seq::empty()
    } else if s[i] == '\\' && i + 1 < s.len() && is_ascii_punct(s[i + 1]) {
        seq![s[i + 1]] + unescape_from(s, i + 2)
    } else {
        seq![s[i]] + unescape_from(s, i + 1)
    }
}

pub open spec fn unescaped(s: Seq<char>) -> Seq<char> {
    unescape_from(s, 0)
}

/// Text without backslashes is left as it is.
pub proof fn law_unescape_without_backslash(s: Seq<char>, i: int)
    requires
        0 <= i <= s.len(),
        !s.contains('\\'),
    ensures
        unescape_from(s, i) == s.skip(i),
    decreases s.len() - i,
{
    if i < s.len() {
        assert(s[i] != '\\');
        law_unescape_without_backslash(s, i + 1);
        assert(seq![s[i]] + s.skip(i + 1) =~= s.skip(i));
    } else {
        assert(s.skip(i) =~= Seq::<char>::empty());
    }
}

/// Unescapes `v`.
pub fn unescape_chars(v: &Vec<char>) -> (r: Vec<char>)
    ensures
        r@ == unescaped(v@),
{
    let mut out: Vec<char> = Vec::new();
    let mut i: usize = 0;
    while i < v.len()
        invariant
            i <= v.len(),
            out@ + unescape_from(v@, i as int) == unescaped(v@),
        decreases v.len() - i,
    {
        let ghost before = out@;
        if v[i] == '\\' && i + 1 < v.len() && ascii_punct(v[i + 1]) {
            out.push(v[i + 1]);
            proof {
                assert(before + unescape_from(v@, i as int) =~= out@ + unescape_from(v@, i + 2));
            }
            i += 2;
        } else {
            out.push(v[i]);
            proof {
                assert(before + unescape_from(v@, i as int) =~= out@ + unescape_from(v@, i + 1));
            }
            i += 1;
        }
    }
    assert(out@ + unescape_from(v@, i as int) =~= out@);
    out
}

/// Strip `\X` -> `X` for the CommonMark escapable set (ASCII punctuation)
/// so that `\*literal\*` renders without emphasis.
pub fn unescape_markdown(s: &str) -> (r: String)
    ensures
        r@ == unescaped(s@),
{
    let v = chars_of(s);
    let u = unescape_chars(&v);
    string_of(&u)
}

/// Backslash-escape decoder for link destinations and titles of reference
/// definitions; it unescapes as `unescape_markdown` does.
pub fn unescape_link_part(s: &str) -> (r: String)
    ensures
        r@ == unescaped(s@),
{
    let v = chars_of(s);
    let u = unescape_chars(&v);
    string_of(&u)
}


// ---------------------------------------------------------------------
// Link destinations and titles: `(dest "title")`
// ---------------------------------------------------------------------

/// In a `<...>` destination (text after the `<`), the index of the closing
/// `>`; `None` when a `<` or line feed comes first or there is none.
/// Backslash escapes the character after it.
pub open spec fn angle_dest_end(r: Seq<char>, i: int) -> Option<int>
    decreases r.len() - i,
{
    if i < 0 || i >= r.len() {
        None
    } else if r[i] == '>' {
        Some(i)
    } else if r[i] == '<' || r[i] == '\n' {
        None
    } else if r[i] == '\\' && i + 1 < r.len() {
        angle_dest_end(r, i + 2)
    } else {
        angle_dest_end(r, i + 1)
    }
}

/// Whether a title body `inner[i..]` is well formed: for the `(...)` form
/// parentheses (unescaped) balance without going below zero; for the quoted
/// forms no unescaped closing quote occurs inside.
pub open spec fn title_body_ok(
    inner: Seq<char>,
    i: int,
    escaped: bool,
    depth: int,
    paren: bool,
    close: char,
) -> bool
    decreases inner.len() - i,
{
    if i < 0 || i >= inner.len() {
        !paren || depth == 0
    } else if escaped {
        title_body_ok(inner, i + 1, false, depth, paren, close)
    } else if inner[i] == '\\' {
        title_body_ok(inner, i + 1, true, depth, paren, close)
    } else if paren {
        if inner[i] == '(' {
            title_body_ok(inner, i + 1, false, depth + 1, paren, close)
        } else if inner[i] == ')' {
            if depth == 0 {
                false
            } else {
                title_body_ok(inner, i + 1, false, depth - 1, paren, close)
            }
        } else {
            title_body_ok(inner, i + 1, false, depth, paren, close)
        }
    } else if inner[i] == close {
        false
    } else {
        title_body_ok(inner, i + 1, false, depth, paren, close)
    }
}

/// The closing delimiter of a title opened by `c`.
pub open spec fn title_close(c: char) -> Option<char> {
    if c == '"' {
        Some('"')
    } else if c == '\'' {
        Some('\'')
    } else if c == '(' {
        Some(')')
    } else {
        None
    }
}

/// A link title `"..."`, `'...'` or `(...)`, delimiters removed.
pub open spec fn link_title(rest: Seq<char>) -> Option<Seq<char>> {
    if rest.len() == 0 {
        None
    } else {
        match title_close(rest[0]) {
            None => None,
            Some(close) => if rest.len() < 2 || rest.last() != close {
                None
            } else {
                let inner = rest.subrange(1, rest.len() - 1);
                if title_body_ok(inner, 0, false, 0, rest[0] == '(', close) {
                    Some(inner)
                } else {
                    None
                }
            },
        }
    }
}

/// The destination of trimmed link text `t`, and where it ends.
pub open spec fn destination_part(t: Seq<char>) -> Option<(int, Seq<char>)> {
    if t[0] == '<' {
        match angle_dest_end(t.drop_first(), 0) {
            None => None,
            Some(i) => Some((i + 2, t.drop_first().take(i))),
        }
    } else {
        let e = bare_stop(t, 0);
        Some((e, t.take(e)))
    }
}

/// What follows the destination opens a title that is never closed: it
/// starts with `"`, `'` or `(` and does not end with the matching closer.
pub open spec fn unterminated_title(rest: Seq<char>) -> bool {
    rest.len() > 0 && match title_close(rest[0]) {
        Some(close) => rest.len() < 2 || rest.last() != close,
        None => false,
    }
}

/// `(href, title)` of the body of a `(...)` link or image destination, or
/// `None` when it is malformed. A missing or unterminated title gives the
/// destination with no title; a closed title with a stray closer inside,
/// or other junk after the destination, makes it malformed.
pub open spec fn destination_title(body: Seq<char>) -> Option<(Seq<char>, Option<Seq<char>>)> {
    let t = trim(body);
    if t.len() == 0 {
        Some((Seq::empty(), None))
    } else {
        match destination_part(t) {
            None => None,
            Some((e, dest)) => {
                let rest = t.skip(skip_link_space(t, e));
                if rest.len() == 0 {
                    Some((dest, None))
                } else {
                    match link_title(rest) {
                        Some(title) => Some((dest, Some(title))),
                        None => if unterminated_title(rest) {
                            Some((dest, None))
                        } else {
                            None
                        },
                    }
                }
            },
        }
    }
}

fn is_link_space_char(c: char) -> (r: bool)
    ensures
        r == is_link_space(c),
{
    c == ' ' || c == '\t' || c == '\n'
}

/// The body of a title (after the opening delimiter, before the closing
/// one) is well formed.
fn title_body_valid(inner: &Vec<char>, paren: bool, close: char) -> (r: bool)
    ensures
        r == title_body_ok(inner@, 0, false, 0, paren, close),
{
    let mut escaped = false;
    let mut depth: usize = 0;
    let mut i: usize = 0;
    while i < inner.len()
        invariant
            i <= inner.len(),
            depth <= i,
            title_body_ok(inner@, 0, false, 0, paren, close) == title_body_ok(
                inner@,
                i as int,
                escaped,
                depth as int,
                paren,
                close,
            ),
        decreases inner.len() - i,
    {
        let ch = inner[i];
        if escaped {
            escaped = false;
        } else if ch == '\\' {
            escaped = true;
        } else if paren {
            if ch == '(' {
                depth += 1;
            } else if ch == ')' {
                if depth == 0 {
                    return false;
                }
                depth -= 1;
            }
        } else if ch == close {
            return false;
        }
        i += 1;
    }
    !paren || depth == 0
}

fn parse_link_title(rest: &Vec<char>) -> (r: Option<Vec<char>>)
    ensures
        match link_title(rest@) {
            Some(t) => r matches Some(v) && v@ == t,
            None => r is None,
        },
{
    if rest.len() == 0 {
        return None;
    }
    let first = rest[0];
    let close = if first == '"' {
        '"'
    } else if first == '\'' {
        '\''
    } else if first == '(' {
        ')'
    } else {
        return None;
    };
    if rest.len() < 2 || rest[rest.len() - 1] != close {
        return None;
    }
    let inner = slice_chars(rest, 1, rest.len() - 1);
    if title_body_valid(&inner, first == '(', close) {
        Some(inner)
    } else {
        None
    }
}

/// Split the body of a `(...)` link/image destination into `(href, title)`.
/// CommonMark allows an optional trailing `"title"`, `'title'` or `(title)`
/// separated from the destination by whitespace. An unterminated or missing
/// title gives the destination with no title.
pub fn split_destination_title(body: &str) -> (r: Option<(String, Option<String>)>)
    ensures
        match destination_title(body@) {
            Some((d, t)) => r matches Some((rd, rt)) && rd@ == d && match t {
                Some(tt) => rt matches Some(x) && x@ == tt,
                None => rt is None,
            },
            None => r is None,
        },
{
    let v = chars_of(body);
    let t = trim_vec(&v);
    let ghost g = t@;
    if t.len() == 0 {
        return Some((string_of(&t), None));
    }
    let dest_end: usize;
    let raw_dest: Vec<char>;
    if t[0] == '<' {
        let mut i: usize = 1;
        let ghost r = g.drop_first();
        let mut found = false;
        while i < t.len()
            invariant_except_break
                !found,
            invariant
                1 <= i <= t.len(),
                g == t@,
                r == g.drop_first(),
                angle_dest_end(r, 0) == angle_dest_end(r, i - 1),
                g == trim(body@),
                g.len() > 0 && g[0] == '<',
            ensures
                1 <= i <= t.len(),
                angle_dest_end(r, 0) == angle_dest_end(r, i - 1),
                found ==> i < t.len() && t@[i as int] == '>',
                !found ==> i >= t.len(),
            decreases t.len() - i,
        {
            let c = t[i];
            assert(r[i - 1] == c);
            if c == '>' {
                found = true;
                break;
            } else if c == '<' || c == '\n' {
                return None;
            } else if c == '\\' && i + 1 < t.len() {
                i += 2;
            } else {
                i += 1;
            }
        }
        if !found {
            assert(angle_dest_end(r, i - 1) is None);
            return None;
        }
        assert(r[i - 1] == '>');
        assert(angle_dest_end(r, i - 1) == Some(i - 1));
        raw_dest = slice_chars(&t, 1, i);
        proof {
            assert(raw_dest@ =~= r.take(i - 1));
        }
        dest_end = i + 1;
    } else {
        let mut e: usize = 0;
        while e < t.len() && !is_link_space_char(t[e])
            invariant
                e <= t.len(),
                g == t@,
                bare_stop(g, 0) == bare_stop(g, e as int),
            decreases t.len() - e,
        {
            e += 1;
        }
        raw_dest = slice_chars(&t, 0, e);
        dest_end = e;
    }
    let mut k = dest_end;
    if k > t.len() {
        k = t.len();
    }
    while k < t.len() && is_link_space_char(t[k])
        invariant
            dest_end <= t.len() ==> dest_end <= k,
            k <= t.len(),
            g == t@,
            skip_link_space(g, dest_end as int) == skip_link_space(g, k as int),
        decreases t.len() - k,
    {
        k += 1;
    }
    let rest = slice_chars(&t, k, t.len());
    assert(rest@ =~= g.skip(k as int));
    if rest.len() == 0 {
        return Some((string_of(&raw_dest), None));
    }
    match parse_link_title(&rest) {
        Some(title) => Some((string_of(&raw_dest), Some(string_of(&title)))),
        None => {
            let first = rest[0];
            let close = if first == '"' {
                '"'
            } else if first == '\'' {
                '\''
            } else if first == '(' {
                ')'
            } else {
                return None;
            };
            if rest.len() < 2 || rest[rest.len() - 1] != close {
                Some((string_of(&raw_dest), None))
            } else {
                None
            }
        },
    }
}


// ---------------------------------------------------------------------
// Punctuation for emphasis flanking
// ---------------------------------------------------------------------

/// Position of a character's Unicode general category in the declaration
/// of `unicode_general_category::GeneralCategory`.
pub uninterp spec fn general_category_index(c: char) -> u8;

/// `unicode_general_category::get_general_category`, as the position of the
/// returned variant in the enum's declaration (`ClosePunctuation` is 0,
/// `ConnectorPunctuation` 1, `CurrencySymbol` 3, `DashPunctuation` 4,
/// `FinalPunctuation` 7, `InitialPunctuation` 9, `MathSymbol` 13,
/// `ModifierSymbol` 15, `OpenPunctuation` 17, `OtherPunctuation` 20,
/// `OtherSymbol` 21). The result is `general_category_index(c)`.
#[verifier::external_body]
fn general_category(c: char) -> (r: u8)
    ensures
        r == general_category_index(c),
{
    unicode_general_category::get_general_category(c) as u8
}

/// Categories P* (Pc Pd Pe Pf Pi Po Ps) and S* (Sc Sk Sm So), by position.
pub open spec fn punct_or_symbol_category(k: u8) -> bool {
    k == 0 || k == 1 || k == 3 || k == 4 || k == 7 || k == 9 || k == 13 || k == 15 || k == 17
        || k == 20 || k == 21
}

/// CommonMark "Unicode punctuation": ASCII punctuation, or general
/// category P* or S*.
pub open spec fn unicode_punct(c: char) -> bool {
    is_ascii_punct(c) || punct_or_symbol_category(general_category_index(c))
}

pub fn is_unicode_punct(c: char) -> (r: bool)
    ensures
        r == unicode_punct(c),
{
    if ascii_punct(c) {
        return true;
    }
    is_punct_or_symbol_category(general_category(c))
}

/// Whether the category at position `k` of the general-category enum is a
/// punctuation (P*) or symbol (S*) category.
pub fn is_punct_or_symbol_category(k: u8) -> (r: bool)
    ensures
        r == punct_or_symbol_category(k),
{
    k == 0 || k == 1 || k == 3 || k == 4 || k == 7 || k == 9 || k == 13 || k == 15 || k == 17
        || k == 20 || k == 21
}


// ---------------------------------------------------------------------
// Labels of parsed inline content
// ---------------------------------------------------------------------

/// Plain text of inline nodes, as reference labels are looked up: text and
/// code values, image alt text, and the text inside emphasis and links.
pub open spec fn plain_list(c: Seq<NodeV>) -> Seq<char>
    decreases c, 1nat,
{
    if c.len() == 0 {
        Seq::empty()
    } else {
        plain_list(c.drop_last()) + plain_of(c.last())
    }
}

pub open spec fn plain_of(n: NodeV) -> Seq<char>
    decreases n, 0nat,
{
    match n {
        NodeV::Text(v, _) => v,
        NodeV::Bold(k, _) => plain_list(k),
        NodeV::Italic(k, _) => plain_list(k),
        NodeV::Strikethrough(k, _) => plain_list(k),
        NodeV::Link(_, _, k, _) => plain_list(k),
        NodeV::Image(_, alt, _, _) => alt,
        NodeV::InlineCode(v, _) => v,
        _ => Seq::empty(),
    }
}

/// Markdown source of inline nodes as far as reference labels need it:
/// emphasis markers, link and image brackets, code backticks.
pub open spec fn label_list(c: Seq<NodeV>) -> Seq<char>
    decreases c, 1nat,
{
    if c.len() == 0 {
        Seq::empty()
    } else {
        label_list(c.drop_last()) + label_of(c.last())
    }
}

pub open spec fn label_of(n: NodeV) -> Seq<char>
    decreases n, 0nat,
{
    match n {
        NodeV::Text(v, _) => v,
        NodeV::Bold(k, _) => "**"@ + label_list(k) + "**"@,
        NodeV::Italic(k, _) => "*"@ + label_list(k) + "*"@,
        NodeV::Strikethrough(k, _) => "~~"@ + label_list(k) + "~~"@,
        NodeV::Link(h, _, k, _) => "["@ + label_list(k) + "]("@ + h + ")"@,
        NodeV::Image(src, alt, _, _) => "!["@ + alt + "]("@ + src + ")"@,
        NodeV::InlineCode(v, _) => "`"@ + v + "`"@,
        _ => Seq::empty(),
    }
}

fn push_chars(out: &mut Vec<char>, s: &str)
    ensures
        final(out)@ == old(out)@ + s@,
{
    let v = chars_of(s);
    push_all(out, &v);
}

fn plain_chars(nodes: &[Node]) -> (r: Vec<char>)
    ensures
        r@ == plain_list(nvs(nodes@)),
    decreases nodes@, 1nat,
{
    let mut out: Vec<char> = Vec::new();
    let mut i: usize = 0;
    while i < nodes.len()
        invariant
            i <= nodes@.len(),
            out@ == plain_list(nvs(nodes@.take(i as int))),
        decreases nodes@.len() - i,
    {
        let n = &nodes[i];
        let ghost before = out@;
        proof {
            assert(nodes@.take(i + 1).drop_last() =~= nodes@.take(i as int));
            assert(nodes@.take(i + 1).last() == *n);
            assert(nvs(nodes@.take(i + 1)).drop_last() =~= nvs(nodes@.take(i as int)));
        }
        match n {
            Node::Text(t) => push_chars(&mut out, t.value.as_str()),
            Node::Bold(x) | Node::Italic(x) | Node::Strikethrough(x) => {
                let v = plain_chars(x.children.as_slice());
                push_all(&mut out, &v);
            },
            Node::Link(l) => {
                let v = plain_chars(l.children.as_slice());
                push_all(&mut out, &v);
            },
            Node::Image(img) => push_chars(&mut out, img.alt.as_str()),
            Node::InlineCode(c) => push_chars(&mut out, c.value.as_str()),
            _ => {},
        }
        assert(out@ == before + plain_of(nv(*n)));
        i += 1;
    }
    assert(nodes@.take(nodes@.len() as int) =~= nodes@);
    out
}

/// Flatten inline nodes to plain text, to build the lookup label of a
/// reference link from its parsed content.
pub fn plain_text(nodes: &[Node]) -> (r: String)
    ensures
        r@ == plain_list(nvs(nodes@)),
{
    let v = plain_chars(nodes);
    string_of(&v)
}

fn push_label_list(out: &mut Vec<char>, nodes: &Vec<Node>)
    ensures
        final(out)@ == old(out)@ + label_list(nvs(nodes@)),
    decreases nodes, 1nat,
{
    let mut i: usize = 0;
    while i < nodes.len()
        invariant
            i <= nodes@.len(),
            out@ == old(out)@ + label_list(nvs(nodes@.take(i as int))),
        decreases nodes@.len() - i,
    {
        proof {
            assert(nodes@.take(i + 1).drop_last() =~= nodes@.take(i as int));
            assert(nodes@.take(i + 1).last() == nodes@[i as int]);
            assert(nvs(nodes@.take(i + 1)).drop_last() =~= nvs(nodes@.take(i as int)));
        }
        push_label_chars(out, &nodes[i]);
        i += 1;
    }
    assert(nodes@.take(nodes@.len() as int) =~= nodes@);
}

fn push_label_chars(out: &mut Vec<char>, node: &Node)
    ensures
        final(out)@ == old(out)@ + label_of(nv(*node)),
    decreases node, 0nat,
{
    match node {
        Node::Text(t) => push_chars(out, t.value.as_str()),
        Node::Bold(i) => {
            push_chars(out, "**");
            push_label_list(out, &i.children);
            push_chars(out, "**");
        },
        Node::Italic(i) => {
            push_chars(out, "*");
            push_label_list(out, &i.children);
            push_chars(out, "*");
        },
        Node::Strikethrough(i) => {
            push_chars(out, "~~");
            push_label_list(out, &i.children);
            push_chars(out, "~~");
        },
        Node::Link(l) => {
            push_chars(out, "[");
            push_label_list(out, &l.children);
            push_chars(out, "](");
            push_chars(out, l.href.as_str());
            push_chars(out, ")");
        },
        Node::Image(img) => {
            push_chars(out, "![");
            push_chars(out, img.alt.as_str());
            push_chars(out, "](");
            push_chars(out, img.src.as_str());
            push_chars(out, ")");
        },
        Node::InlineCode(c) => {
            push_chars(out, "`");
            push_chars(out, c.value.as_str());
            push_chars(out, "`");
        },
        _ => {},
    }
}

/// Appends the label text of one inline node: emphasis markers and link /
/// image bracketing preserved, for reference-definition lookup.
pub fn push_node_label(out: &mut String, node: &Node)
    ensures
        final(out)@ == old(out)@ + label_of(nv(*node)),
{
    let mut v: Vec<char> = Vec::new();
    push_label_chars(&mut v, node);
    let label = string_of(&v);
    append_str(out, label.as_str());
}

} // verus!
