//! Character references: `&amp;`, `&#9;`, `&#x2A;` (CommonMark 6.6).
//! Numeric forms are decoded here; named forms go through the HTML5 entity
//! table of the `htmlentity` crate.

use vstd::prelude::*;
use htmlentity::entity::ICodedDataTrait;
use crate::text::{chars_eq, chars_of, string_of};

verus! {

// ---------------------------------------------------------------------
// Numbers
// ---------------------------------------------------------------------

/// Value of a digit in base 10 or 16, if it is one.
pub open spec fn digit_value(c: char, radix: u32) -> Option<nat> {
    if '0' <= c <= '9' {
        Some((c as u32 - '0' as u32) as nat)
    } else if radix == 16 && 'a' <= c <= 'f' {
        Some((c as u32 - 'a' as u32 + 10) as nat)
    } else if radix == 16 && 'A' <= c <= 'F' {
        Some((c as u32 - 'A' as u32 + 10) as nat)
    } else {
        None
    }
}

/// Value of a digit string, or `None` when a character is not a digit.
pub open spec fn digits_value(d: Seq<char>, radix: u32) -> Option<nat>
    decreases d.len(),
{
    if d.len() == 0 {
        Some(0)
    } else {
        match (digits_value(d.drop_last(), radix), digit_value(d.last(), radix)) {
            (Some(v), Some(x)) => Some(v * (radix as nat) + x),
            _ => None,
        }
    }
}

/// What `u32::from_str_radix` accepts: an optional `+`, then at least one
/// digit, with a value that fits in a `u32`.
pub open spec fn parse_u32(s: Seq<char>, radix: u32) -> Option<u32> {
    let d = if s.len() > 0 && s[0] == '+' {
        s.drop_first()
    } else {
        s
    };
    if d.len() == 0 {
        None
    } else {
        match digits_value(d, radix) {
            Some(v) => if v <= u32::MAX {
                Some(v as u32)
            } else {
                None
            },
            None => None,
        }
    }
}

/// The value of a string of decimal digits `0` to `9`.
pub open spec fn decimal_value(d: Seq<char>) -> nat
    decreases d.len(),
{
    if d.len() == 0 {
        0
    } else {
        decimal_value(d.drop_last()) * 10 + ((d.last() as u32) - ('0' as u32)) as nat
    }
}

/// The value of a string of hexadecimal digits `0`-`9`, `a`-`f`, `A`-`F`.
pub open spec fn hex_value(d: Seq<char>) -> nat
    decreases d.len(),
{
    if d.len() == 0 {
        0
    } else {
        let c = d.last();
        let x: nat = if '0' <= c <= '9' {
            ((c as u32) - ('0' as u32)) as nat
        } else if 'a' <= c <= 'f' {
            ((c as u32) - ('a' as u32) + 10) as nat
        } else {
            ((c as u32) - ('A' as u32) + 10) as nat
        };
        hex_value(d.drop_last()) * 16 + x
    }
}

proof fn lemma_decimal_digits(d: Seq<char>)
    requires
        forall|i: int| 0 <= i < d.len() ==> '0' <= #[trigger] d[i] <= '9',
    ensures
        digits_value(d, 10) == Some(decimal_value(d)),
    decreases d.len(),
{
    if d.len() > 0 {
        assert forall|i: int| 0 <= i < d.drop_last().len() implies '0' <= #[trigger] d.drop_last()[i] <= '9' by {
            assert(d.drop_last()[i] == d[i]);
        }
        lemma_decimal_digits(d.drop_last());
        assert('0' <= d[d.len() - 1] <= '9');
    }
}

proof fn lemma_hex_digits(d: Seq<char>)
    requires
        forall|i: int|
            0 <= i < d.len() ==> ('0' <= #[trigger] d[i] <= '9' || 'a' <= d[i] <= 'f' || 'A' <= d[i] <= 'F'),
    ensures
        digits_value(d, 16) == Some(hex_value(d)),
    decreases d.len(),
{
    if d.len() > 0 {
        assert forall|i: int| 0 <= i < d.drop_last().len() implies ('0' <= #[trigger] d.drop_last()[i] <= '9' || 'a'
            <= d.drop_last()[i] <= 'f' || 'A' <= d.drop_last()[i] <= 'F') by {
            assert(d.drop_last()[i] == d[i]);
        }
        lemma_hex_digits(d.drop_last());
        let c = d[d.len() - 1];
        assert('0' <= c <= '9' || 'a' <= c <= 'f' || 'A' <= c <= 'F');
    }
}

/// The code point of a numeric reference, as the reference decodes.
pub open spec fn code_point_text(v: nat) -> Seq<char> {
    if v == 0 {
        seq!['\u{FFFD}']
    } else {
        seq![(v as u32) as char]
    }
}

/// A decimal reference `&#d;` decodes to the character with the digits'
/// value (U+FFFD for zero), whenever that value is a Unicode scalar value;
/// every digit `0` to `9` counts.
pub proof fn law_decimal_reference(d: Seq<char>)
    ensures
        (d.len() > 0 && (forall|i: int| 0 <= i < d.len() ==> '0' <= #[trigger] d[i] <= '9') && decimal_value(d)
            <= u32::MAX && (decimal_value(d) == 0 || scalar_value(decimal_value(d) as u32)))
            ==> entity_decode(seq!['&', '#'] + d + seq![';']) == Some(code_point_text(decimal_value(d))),
{
    if d.len() > 0 && (forall|i: int| 0 <= i < d.len() ==> '0' <= #[trigger] d[i] <= '9') && decimal_value(d)
        <= u32::MAX && (decimal_value(d) == 0 || scalar_value(decimal_value(d) as u32)) {
        let raw = seq!['&', '#'] + d + seq![';'];
        lemma_decimal_digits(d);
        assert(raw.subrange(2, raw.len() - 1) =~= d);
        assert(raw[0] == '&' && raw[1] == '#' && raw.last() == ';');
        assert('0' <= d[0] <= '9');
        assert(scalar_value(0xFFFDu32));
    }
}

/// A hexadecimal reference `&#xh;` (or `&#Xh;`) decodes to the character
/// with the digits' value (U+FFFD for zero), whenever that value is a
/// Unicode scalar value.
pub proof fn law_hex_reference(x: char, d: Seq<char>)
    ensures
        ((x == 'x' || x == 'X') && d.len() > 0 && (forall|i: int|
            0 <= i < d.len() ==> ('0' <= #[trigger] d[i] <= '9' || 'a' <= d[i] <= 'f' || 'A' <= d[i] <= 'F'))
            && hex_value(d) <= u32::MAX && (hex_value(d) == 0 || scalar_value(hex_value(d) as u32)))
            ==> entity_decode(seq!['&', '#', x] + d + seq![';']) == Some(code_point_text(hex_value(d))),
{
    if (x == 'x' || x == 'X') && d.len() > 0 && (forall|i: int|
        0 <= i < d.len() ==> ('0' <= #[trigger] d[i] <= '9' || 'a' <= d[i] <= 'f' || 'A' <= d[i] <= 'F'))
        && hex_value(d) <= u32::MAX && (hex_value(d) == 0 || scalar_value(hex_value(d) as u32)) {
        let raw = seq!['&', '#', x] + d + seq![';'];
        lemma_hex_digits(d);
        assert(raw.subrange(2, raw.len() - 1) =~= seq![x] + d);
        assert((seq![x] + d).drop_first() =~= d);
        assert(raw[0] == '&' && raw[1] == '#' && raw.last() == ';');
        let c0 = d[0];
        assert('0' <= c0 <= '9' || 'a' <= c0 <= 'f' || 'A' <= c0 <= 'F');
        assert(scalar_value(0xFFFDu32));
    }
}

proof fn lemma_ref_close_digits(c: Seq<char>, start: int, n: int, j: int)
    requires
        0 <= start,
        start + 2 + n < c.len(),
        n <= 30,
        c[start] == '&',
        c[start + 1] == '#',
        forall|k: int| start + 2 <= k < start + 2 + n ==> '0' <= #[trigger] c[k] <= '9',
        c[start + 2 + n] == ';',
        start + 1 <= j <= start + 2 + n,
    ensures
        ref_close(c, j, (j - start) as nat) == Some(start + 2 + n),
    decreases start + 2 + n - j,
{
    if j < start + 2 + n {
        assert(c[j] != ';');
        assert(char_width(c[j]) == 1);
        lemma_ref_close_digits(c, start, n, j + 1);
    }
}

proof fn lemma_entities_plain_prefix(c: Seq<char>, a_len: int, i: int)
    requires
        0 <= i <= a_len <= c.len(),
        forall|k: int| 0 <= k < a_len ==> #[trigger] c[k] != '&',
    ensures
        entities_from(c, i) == c.subrange(i, a_len) + entities_from(c, a_len),
    decreases a_len - i,
{
    if i < a_len {
        assert(decoded_at(c, i) is None);
        lemma_entities_plain_prefix(c, a_len, i + 1);
        assert(seq![c[i]] + (c.subrange(i + 1, a_len) + entities_from(c, a_len)) =~= c.subrange(i, a_len)
            + entities_from(c, a_len));
    } else {
        assert(c.subrange(i, a_len) =~= Seq::<char>::empty());
    }
}

/// In running text, a decimal reference of up to thirty digits (every
/// digit `0` to `9`) is replaced by its character, and the text around it
/// is kept: `a &#d; b` becomes `a`, the character, `b`.
pub proof fn law_decimal_reference_in_text(a: Seq<char>, d: Seq<char>, b: Seq<char>)
    ensures
        ((forall|k: int| 0 <= k < a.len() ==> #[trigger] a[k] != '&') && (forall|k: int|
            0 <= k < b.len() ==> #[trigger] b[k] != '&') && 0 < d.len() <= 30 && (forall|i: int|
            0 <= i < d.len() ==> '0' <= #[trigger] d[i] <= '9') && decimal_value(d) <= u32::MAX && (
        decimal_value(d) == 0 || scalar_value(decimal_value(d) as u32))) ==> entities_from(
            a + seq!['&', '#'] + d + seq![';'] + b,
            0,
        ) == a + code_point_text(decimal_value(d)) + b,
{
    if (forall|k: int| 0 <= k < a.len() ==> #[trigger] a[k] != '&') && (forall|k: int|
        0 <= k < b.len() ==> #[trigger] b[k] != '&') && 0 < d.len() <= 30 && (forall|i: int|
        0 <= i < d.len() ==> '0' <= #[trigger] d[i] <= '9') && decimal_value(d) <= u32::MAX && (decimal_value(d)
        == 0 || scalar_value(decimal_value(d) as u32)) {
        let r = seq!['&', '#'] + d + seq![';'];
        let c = a + r + b;
        assert(c =~= a + seq!['&', '#'] + d + seq![';'] + b);
        let st = a.len() as int;
        let e = st + 2 + d.len();
        assert forall|k: int| 0 <= k < st implies #[trigger] c[k] != '&' by {
            assert(c[k] == a[k]);
        }
        lemma_entities_plain_prefix(c, st, 0);
        assert(c.subrange(0, st) =~= a);
        assert(c[st] == '&');
        assert(c[st + 1] == '#');
        assert forall|k: int| st + 2 <= k < e implies '0' <= #[trigger] c[k] <= '9' by {
            assert(c[k] == d[k - st - 2]);
        }
        assert(c[e] == ';');
        lemma_ref_close_digits(c, st, d.len() as int, st + 1);
        assert(c.subrange(st, e + 1) =~= r);
        law_decimal_reference(d);
        assert(decoded_at(c, st) == Some((code_point_text(decimal_value(d)), e + 1)));
        assert forall|k: int| e + 1 <= k < c.len() implies #[trigger] decoded_at(c, k) is None by {
            assert(c[k] == b[k - e - 1]);
        }
        law_undecodable_text_kept(c, e + 1);
        assert(c.skip(e + 1) =~= b);
        lemma_ref_close(c, st + 1, 1);
        assert(entities_from(c, st) == code_point_text(decimal_value(d)) + entities_from(c, e + 1));
        assert(entities_from(c, 0) =~= a + code_point_text(decimal_value(d)) + b);
    }
}

fn digit_of(c: char, radix: u32) -> (r: Option<u64>)
    requires
        radix == 10 || radix == 16,
    ensures
        match digit_value(c, radix) {
            Some(x) => r == Some(x as u64),
            None => r is None,
        },
{
    if '0' <= c && c <= '9' {
        Some((c as u32 - '0' as u32) as u64)
    } else if radix == 16 && 'a' <= c && c <= 'f' {
        Some((c as u32 - 'a' as u32 + 10) as u64)
    } else if radix == 16 && 'A' <= c && c <= 'F' {
        Some((c as u32 - 'A' as u32 + 10) as u64)
    } else {
        None
    }
}

/// Parses a decimal (`radix` 10) or hexadecimal (`radix` 16) `u32` the
/// way `str::parse` / `u32::from_str_radix` do.
fn parse_u32_radix(s: &Vec<char>, radix: u32) -> (r: Option<u32>)
    requires
        radix == 10 || radix == 16,
    ensures
        r == parse_u32(s@, radix),
{
    let start: usize = if s.len() > 0 && s[0] == '+' {
        1
    } else {
        0
    };
    let ghost d = if s@.len() > 0 && s@[0] == '+' {
        s@.drop_first()
    } else {
        s@
    };
    assert(d =~= s@.skip(start as int));
    if start >= s.len() {
        return None;
    }
    // `v` is the value so far, or `u32::MAX + 1` once it has gone beyond.
    let mut v: u64 = 0;
    let mut i = start;
    let big: u64 = 0x1_0000_0000;
    while i < s.len()
        invariant
            start <= i <= s.len(),
            radix == 10 || radix == 16,
            d == s@.skip(start as int),
            d == (if s@.len() > 0 && s@[0] == '+' {
                s@.drop_first()
            } else {
                s@
            }),
            d.len() > 0,
            big == 0x1_0000_0000,
            v <= big,
            match digits_value(d.take(i - start), radix) {
                Some(x) => (x < big ==> v == x) && (x >= big ==> v == big),
                None => false,
            },
        decreases s.len() - i,
    {
        let ghost pre = d.take(i - start);
        let ghost next = d.take(i + 1 - start);
        proof {
            assert(next.drop_last() =~= pre);
            assert(next.last() == s@[i as int]);
        }
        match digit_of(s[i], radix) {
            Some(x) => {
                proof {
                    let px = digits_value(pre, radix)->0;
                    assert(digits_value(next, radix) == Some(px * (radix as nat) + (x as nat)));
                    if px >= big {
                        assert(px * radix >= px) by (nonlinear_arith)
                            requires
                                radix >= 1,
                        ;
                    }
                }
                if v >= big {
                    v = big;
                } else {
                    let w = v * (radix as u64) + x;
                    if w >= big {
                        v = big;
                    } else {
                        v = w;
                    }
                }
            },
            None => {
                proof {
                    assert(digits_value(next, radix) is None);
                    lemma_digits_none_stays(d, i + 1 - start, radix);
                }
                return None;
            },
        }
        i += 1;
    }
    assert(d.take(s.len() - start) =~= d);
    if v >= big {
        None
    } else {
        Some(v as u32)
    }
}

proof fn lemma_digits_none_stays(d: Seq<char>, n: int, radix: u32)
    requires
        0 <= n <= d.len(),
        digits_value(d.take(n), radix) is None,
    ensures
        digits_value(d, radix) is None,
    decreases d.len() - n,
{
    if n < d.len() {
        assert(d.take(n + 1).drop_last() =~= d.take(n));
        lemma_digits_none_stays(d, n + 1, radix);
    } else {
        assert(d.take(n) =~= d);
    }
}

// ---------------------------------------------------------------------
// Decoding one reference
// ---------------------------------------------------------------------

/// A Unicode scalar value: not a surrogate, at most U+10FFFF.
pub open spec fn scalar_value(cp: u32) -> bool {
    cp < 0xD800 || (0xE000 <= cp && cp <= 0x10FFFF)
}

/// `char::from_u32`: `Some` exactly for Unicode scalar values (not a
/// surrogate, at most U+10FFFF), holding the character with that number.
#[verifier::external_body]
fn char_from_u32(cp: u32) -> (r: Option<char>)
    ensures
        r is Some <==> scalar_value(cp),
        r matches Some(c) ==> c as u32 == cp && c == cp as char,
{
    char::from_u32(cp)
}

/// What the `htmlentity` decoder makes of a text: `None` when its output
/// is not a string.
pub uninterp spec fn html_decoded(raw: Seq<char>) -> Option<Seq<char>>;

/// `htmlentity::entity::decode` of the text's bytes, then `to_string()`:
/// the result is `html_decoded(raw)`.
#[verifier::external_body]
fn html_decode(raw: &str) -> (r: Option<String>)
    ensures
        match html_decoded(raw@) {
            Some(s) => r matches Some(x) && x@ == s,
            None => r is None,
        },
{
    htmlentity::entity::decode(raw.as_bytes()).to_string().ok()
}

pub open spec fn ng_e() -> Seq<char> {
    seq!['&', 'n', 'g', 'E', ';']
}

/// Decoding of one reference `&...;`: numeric forms here (a zero code
/// point becomes U+FFFD), `&ngE;` by hand, other names through the HTML5
/// table; `None` when it is malformed or unknown.
pub open spec fn entity_decode(raw: Seq<char>) -> Option<Seq<char>> {
    if raw.len() >= 3 && raw[0] == '&' && raw.last() == ';' && raw[1] == '#' {
        let rest = raw.subrange(2, raw.len() - 1);
        let cp = if rest.len() > 0 && (rest[0] == 'x' || rest[0] == 'X') {
            parse_u32(rest.drop_first(), 16)
        } else {
            parse_u32(rest, 10)
        };
        match cp {
            None => None,
            Some(v) => {
                let w: u32 = if v == 0 {
                    0xFFFD
                } else {
                    v
                };
                if scalar_value(w) {
                    Some(seq![w as char])
                } else {
                    None
                }
            },
        }
    } else if raw == ng_e() {
        Some(seq!['\u{2267}', '\u{338}'])
    } else {
        named_outcome(raw, html_decoded(raw))
    }
}

/// A named reference decodes when the HTML5 table turned it into something
/// else than itself.
pub open spec fn named_outcome(raw: Seq<char>, decoded: Option<Seq<char>>) -> Option<Seq<char>> {
    match decoded {
        None => None,
        Some(s) => if s == raw {
            None
        } else {
            Some(s)
        },
    }
}

/// The decoding of a named reference `raw` from what the HTML5 table made of
/// it: `None` when that is not text or is `raw` unchanged (unknown name).
pub fn named_reference(raw: &str, decoded: Option<String>) -> (r: Option<String>)
    ensures
        match named_outcome(raw@, opt_view(decoded)) {
            Some(s) => r matches Some(x) && x@ == s,
            None => r is None,
        },
{
    match decoded {
        None => None,
        Some(s) => {
            let a = chars_of(s.as_str());
            let b = chars_of(raw);
            if chars_eq(&a, &b) {
                None
            } else {
                Some(s)
            }
        },
    }
}

pub open spec fn opt_view(o: Option<String>) -> Option<Seq<char>> {
    match o {
        Some(s) => Some(s@),
        None => None,
    }
}

/// Decode a CommonMark entity reference (`&amp;`, `&#9;`, `&#x2A;`).
/// Returns `None` when the form is malformed or the named entity is not
/// recognized; the caller then keeps the raw text.
pub fn decode_entity(raw: &str) -> (r: Option<String>)
    ensures
        match entity_decode(raw@) {
            Some(s) => r matches Some(x) && x@ == s,
            None => r is None,
        },
{
    let v = chars_of(raw);
    let n = v.len();
    if n >= 3 && v[0] == '&' && v[n - 1] == ';' && v[1] == '#' {
        let mut rest: Vec<char> = Vec::new();
        let mut hex = false;
        let mut k: usize = 2;
        if n - 1 > 2 && (v[2] == 'x' || v[2] == 'X') {
            hex = true;
            k = 3;
        }
        let ghost r0 = v@.subrange(2, n - 1);
        while k < n - 1
            invariant
                n == v.len(),
                n >= 3,
                r0 == v@.subrange(2, n - 1),
                (if hex { 3int } else { 2int }) <= k <= n - 1,
                rest@ == v@.subrange(if hex { 3int } else { 2int }, k as int),
            decreases n - 1 - k,
        {
            rest.push(v[k]);
            k += 1;
            assert(rest@ =~= v@.subrange(if hex { 3int } else { 2int }, k as int));
        }
        proof {
            if hex {
                assert(rest@ =~= r0.drop_first());
            } else {
                assert(rest@ =~= r0);
            }
        }
        let cp = if hex {
            parse_u32_radix(&rest, 16)
        } else {
            parse_u32_radix(&rest, 10)
        };
        return match cp {
            None => None,
            Some(x) => {
                let w: u32 = if x == 0 {
                    0xFFFD
                } else {
                    x
                };
                match char_from_u32(w) {
                    Some(c) => {
                        let mut out: Vec<char> = Vec::new();
                        out.push(c);
                        proof {
                            assert(out@ =~= seq![w as char]);
                        }
                        Some(string_of(&out))
                    },
                    None => None,
                }
            },
        };
    }
    if n == 5 && v[0] == '&' && v[1] == 'n' && v[2] == 'g' && v[3] == 'E' && v[4] == ';' {
        assert(v@ =~= ng_e());
        let mut out: Vec<char> = Vec::new();
        out.push('\u{2267}');
        out.push('\u{338}');
        return Some(string_of(&out));
    }
    proof {
        if v@ == ng_e() {
            assert(v@[4] == ';');
        }
    }
    named_reference(raw, html_decode(raw))
}

// ---------------------------------------------------------------------
// Decoding all references in a text
// ---------------------------------------------------------------------

/// Bytes of the UTF-8 encoding of `c`.
pub open spec fn char_width(c: char) -> nat {
    if (c as u32) < 0x80 {
        1
    } else if (c as u32) < 0x800 {
        2
    } else if (c as u32) < 0x10000 {
        3
    } else {
        4
    }
}

/// The `;` that closes a reference whose scan reached `j` after `used`
/// bytes: references span at most 33 bytes, `&` and `;` included.
pub open spec fn ref_close(c: Seq<char>, j: int, used: nat) -> Option<int>
    decreases c.len() - j,
{
    if j < 0 || j >= c.len() || used >= 33 {
        None
    } else if c[j] == ';' {
        Some(j)
    } else {
        ref_close(c, j + 1, used + char_width(c[j]))
    }
}

pub proof fn lemma_ref_close(c: Seq<char>, j: int, used: nat)
    requires
        0 <= j,
    ensures
        ref_close(c, j, used) matches Some(k) ==> j <= k < c.len() && c[k] == ';',
    decreases c.len() - j,
{
    if j < c.len() && used < 33 && c[j] != ';' {
        lemma_ref_close(c, j + 1, used + char_width(c[j]));
    }
}

/// The decoding of the reference that starts at `i`, with the position
/// after it, when one starts there and decodes.
pub open spec fn decoded_at(c: Seq<char>, i: int) -> Option<(Seq<char>, int)> {
    if 0 <= i < c.len() && c[i] == '&' {
        match ref_close(c, i + 1, 1) {
            Some(j) => match entity_decode(c.subrange(i, j + 1)) {
                Some(d) => Some((d, j + 1)),
                None => None,
            },
            None => None,
        }
    } else {
        None
    }
}

/// `c[i..]` with each decodable reference `&...;` replaced by its decoding;
/// every other character kept.
pub open spec fn entities_from(c: Seq<char>, i: int) -> Seq<char>
    decreases c.len() - i,
{
    if i < 0 || i >= c.len() {
        Seq::empty()
    } else {
        match decoded_at(c, i) {
            Some((d, k)) => {
                proof {
                    lemma_ref_close(c, i + 1, 1);
                }
                d + entities_from(c, k)
            },
            None => seq![c[i]] + entities_from(c, i + 1),
        }
    }
}

/// Nothing is lost: where no reference decodes, the text comes back as it
/// was.
pub proof fn law_undecodable_text_kept(c: Seq<char>, i: int)
    requires
        0 <= i <= c.len(),
        forall|k: int| i <= k < c.len() ==> #[trigger] decoded_at(c, k) is None,
    ensures
        entities_from(c, i) == c.skip(i),
    decreases c.len() - i,
{
    if i < c.len() {
        assert(decoded_at(c, i) is None);
        law_undecodable_text_kept(c, i + 1);
        assert(seq![c[i]] + c.skip(i + 1) =~= c.skip(i));
    } else {
        assert(c.skip(i) =~= Seq::<char>::empty());
    }
}

fn width_of(c: char) -> (w: usize)
    ensures
        w == char_width(c),
{
    let n = c as u32;
    if n < 0x80 {
        1
    } else if n < 0x800 {
        2
    } else if n < 0x10000 {
        3
    } else {
        4
    }
}

/// Decode every `&...;` reference inside a string. Numeric references
/// always decode; named ones through the HTML5 table. Unknown or malformed
/// references stay verbatim.
pub fn decode_entities_in(s: &str) -> (r: String)
    ensures
        r@ == entities_from(s@, 0),
{
    let v = chars_of(s);
    let n = v.len();
    let mut out: Vec<char> = Vec::new();
    let mut i: usize = 0;
    while i < n
        invariant
            i <= n == v@.len(),
            v@ == s@,
            out@ + entities_from(v@, i as int) == entities_from(v@, 0),
        decreases n - i,
    {
        let ghost before = out@;
        if v[i] == '&' {
            let mut j = i + 1;
            let mut used: usize = 1;
            while j < n && used < 33 && v[j] != ';'
                invariant
                    i + 1 <= j <= n,
                    n == v@.len(),
                    used <= 36,
                    ref_close(v@, i + 1, 1) == ref_close(v@, j as int, used as nat),
                decreases n - j,
            {
                used = used + width_of(v[j]);
                j += 1;
            }
            if j < n && used < 33 {
                let raw = crate::text::string_of_range(&v, i, j + 1);
                match decode_entity(raw.as_str()) {
                    Some(decoded) => {
                        let dv = chars_of(decoded.as_str());
                        crate::text::push_all(&mut out, &dv);
                        proof {
                            assert(before + entities_from(v@, i as int) =~= out@ + entities_from(
                                v@,
                                j + 1,
                            ));
                        }
                        i = j + 1;
                        continue;
                    },
                    None => {},
                }
            }
        }
        out.push(v[i]);
        proof {
            assert(before + entities_from(v@, i as int) =~= out@ + entities_from(v@, i + 1));
        }
        i += 1;
    }
    assert(out@ + entities_from(v@, i as int) =~= out@);
    string_of(&out)
}

} // verus!
