//! ATX heading content: what the inline run of a heading line keeps.

use vstd::prelude::*;
use crate::ast::{lemma_nvs, nv, nvs, Node, NodeV, Text};
use crate::block::trail_blanks;
use crate::text::{chars_of, slice_chars, string_of};

verus! {

/// How many spaces and tabs open `s`.
pub open spec fn lead_blanks(s: Seq<char>) -> nat
    decreases s.len(),
{
    if s.len() > 0 && (s[0] == ' ' || s[0] == '\t') {
        1 + lead_blanks(s.drop_first())
    } else {
        0
    }
}

/// `s` without its trailing hard breaks.
pub open spec fn drop_hard_breaks(s: Seq<NodeV>) -> Seq<NodeV>
    decreases s.len(),
{
    if s.len() > 0 && s.last() is HardBreak {
        drop_hard_breaks(s.drop_last())
    } else {
        s
    }
}

/// A leading text node loses its leading spaces and tabs, and goes when
/// nothing is left of it.
pub open spec fn trim_first_text(s: Seq<NodeV>) -> Seq<NodeV> {
    if s.len() > 0 && s[0] is Text {
        let (v, sp) = (s[0]->Text_0, s[0]->Text_1);
        let t = v.skip(lead_blanks(v) as int);
        if t.len() == 0 {
            s.drop_first()
        } else {
            s.update(0, NodeV::Text(t, sp))
        }
    } else {
        s
    }
}

/// Trailing text nodes that are only spaces and tabs go; the last one
/// left loses its trailing spaces and tabs.
pub open spec fn trim_last_text(s: Seq<NodeV>) -> Seq<NodeV>
    decreases s.len(),
{
    if s.len() > 0 && s.last() is Text {
        let (v, sp) = (s.last()->Text_0, s.last()->Text_1);
        let t = v.take(v.len() - trail_blanks(v));
        if t.len() == 0 {
            trim_last_text(s.drop_last())
        } else {
            s.update(s.len() - 1, NodeV::Text(t, sp))
        }
    } else {
        s
    }
}

/// What a heading keeps of its inline run (CommonMark 4.2): no trailing
/// hard break, no blanks around its text.
pub open spec fn heading_children(s: Seq<NodeV>) -> Seq<NodeV> {
    trim_last_text(trim_first_text(drop_hard_breaks(s)))
}

proof fn lemma_trail_blanks(s: Seq<char>)
    ensures
        trail_blanks(s) <= s.len(),
    decreases s.len(),
{
    if s.len() > 0 && (s.last() == ' ' || s.last() == '\t') {
        lemma_trail_blanks(s.drop_last());
    }
}

pub proof fn lemma_nvs_drop_last(s: Seq<Node>)
    requires
        s.len() > 0,
    ensures
        nvs(s.drop_last()) == nvs(s).drop_last(),
        nvs(s).last() == nv(s.last()),
        nvs(s).len() == s.len(),
{
    lemma_nvs(s);
}

pub proof fn lemma_nvs_update(s: Seq<Node>, i: int, n: Node)
    requires
        0 <= i < s.len(),
    ensures
        nvs(s.update(i, n)) == nvs(s).update(i, nv(n)),
{
    lemma_nvs(s);
    lemma_nvs(s.update(i, n));
    assert(nvs(s.update(i, n)) =~= nvs(s).update(i, nv(n)));
}

proof fn lemma_nvs_remove_first(s: Seq<Node>)
    requires
        s.len() > 0,
    ensures
        nvs(s.remove(0)) == nvs(s).drop_first(),
{
    lemma_nvs(s);
    lemma_nvs(s.remove(0));
    assert(nvs(s.remove(0)) =~= nvs(s).drop_first());
}

fn trim_start_blanks(v: &Vec<char>) -> (r: Vec<char>)
    ensures
        r@ == v@.skip(lead_blanks(v@) as int),
{
    let mut k: usize = 0;
    assert(v@.skip(0) =~= v@);
    while k < v.len() && (v[k] == ' ' || v[k] == '\t')
        invariant
            k <= v.len(),
            lead_blanks(v@) == k + lead_blanks(v@.skip(k as int)),
        decreases v.len() - k,
    {
        assert(v@.skip(k as int).drop_first() =~= v@.skip(k + 1));
        k += 1;
    }
    proof {
        if k < v.len() {
            assert(v@.skip(k as int)[0] == v@[k as int]);
        }
    }
    slice_chars(v, k, v.len())
}

fn trim_end_blanks(v: &Vec<char>) -> (r: Vec<char>)
    ensures
        r@ == v@.take(v@.len() - trail_blanks(v@)),
{
    let mut n: usize = v.len();
    assert(v@.take(n as int) =~= v@);
    while n > 0 && (v[n - 1] == ' ' || v[n - 1] == '\t')
        invariant
            n <= v.len(),
            trail_blanks(v@) == (v.len() - n) + trail_blanks(v@.take(n as int)),
        decreases n,
    {
        assert(v@.take(n as int).drop_last() =~= v@.take(n - 1));
        assert(v@.take(n as int).last() == v@[n - 1]);
        n -= 1;
    }
    proof {
        if n > 0 {
            assert(v@.take(n as int).last() == v@[n - 1]);
        }
    }
    slice_chars(v, 0, n)
}

/// Trim a heading's inline run: trailing hard breaks go, the first text
/// loses its leading blanks, trailing blank texts go and the last text
/// loses its trailing blanks.
pub fn trim_heading_children(children: &mut Vec<Node>)
    ensures
        nvs(final(children)@) == heading_children(nvs(old(children)@)),
{
    let ghost s0 = nvs(children@);
    while children.len() > 0 && matches!(children[children.len() - 1], Node::HardBreak(_))
        invariant
            drop_hard_breaks(nvs(children@)) == drop_hard_breaks(s0),
        decreases children.len(),
    {
        proof {
            lemma_nvs_drop_last(children@);
        }
        children.pop();
    }
    proof {
        if children@.len() > 0 {
            lemma_nvs_drop_last(children@);
        }
    }
    let ghost s1 = nvs(children@);
    assert(s1 == drop_hard_breaks(s0));
    if children.len() > 0 {
        let first = match &children[0] {
            Node::Text(t) => Some((trim_start_blanks(&chars_of(t.value.as_str())), crate::ast::clone_span(&t.span))),
            _ => None,
        };
        proof {
            lemma_nvs(children@);
        }
        if let Some((trimmed, span)) = first {
            if trimmed.len() == 0 {
                proof {
                    lemma_nvs_remove_first(children@);
                }
                children.remove(0);
            } else {
                let node = Node::Text(Text { value: string_of(&trimmed), span });
                proof {
                    lemma_nvs_update(children@, 0, node);
                }
                children[0] = node;
            }
        }
    }
    let ghost s2 = nvs(children@);
    assert(s2 == trim_first_text(s1));
    loop
        invariant_except_break
            trim_last_text(nvs(children@)) == trim_last_text(s2),
        ensures
            nvs(children@) == trim_last_text(s2),
        decreases children.len(),
    {
        if children.len() == 0 {
            break;
        }
        let last = children.len() - 1;
        proof {
            lemma_nvs_drop_last(children@);
        }
        let piece = match &children[last] {
            Node::Text(t) => {
                let v = chars_of(t.value.as_str());
                let trimmed = trim_end_blanks(&v);
                Some((trimmed, v.len(), crate::ast::clone_span(&t.span)))
            },
            _ => None,
        };
        match piece {
            None => {
                break;
            },
            Some((trimmed, old_len, span)) => {
                if trimmed.len() == 0 {
                    children.pop();
                } else if trimmed.len() != old_len {
                    let node = Node::Text(Text { value: string_of(&trimmed), span });
                    proof {
                        let s = nvs(children@);
                        lemma_nvs_update(children@, last as int, node);
                        assert(s.last() is Text);
                        assert(trim_last_text(s) == s.update(s.len() - 1, nv(node)));
                    }
                    children[last] = node;
                    break;
                } else {
                    proof {
                        let s = nvs(children@);
                        let lv = s.last()->Text_0;
                        assert(s.last() is Text);
                        assert(trimmed@ == lv.take(lv.len() - trail_blanks(lv)));
                        lemma_trail_blanks(lv);
                        assert(trimmed@.len() == lv.len());
                        assert(lv.take(lv.len() as int) =~= lv);
                        assert(trimmed@ =~= lv);
                        assert(s.update(s.len() - 1, s.last()) =~= s);
                    }
                    break;
                }
            },
        }
    }
}

} // verus!
