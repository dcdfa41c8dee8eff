//! Tree post-processing over finished node lists: emphasis normalization,
//! list-item shaping, hard-break cleanup, and JSX child layout.

use vstd::prelude::*;
use crate::text::{is_white_space, is_whitespace};
use crate::ast::{
    lemma_nvs_len, lemma_nvs_index, lemma_nvs_add, nv, nvs, BreakNode, Heading, Inline, Link, Node, NodeV, Paragraph, Span,
    Text,
};

verus! {

broadcast use lemma_nvs_len, lemma_nvs_index;

pub proof fn lemma_nvs_push(s: Seq<Node>, n: Node)
    ensures
        nvs(s.push(n)) == nvs(s).push(nv(n)),
{
    assert(s.push(n).drop_last() =~= s);
}

// ---------------------------------------------------------------------
// Legacy GFM emphasis
// ---------------------------------------------------------------------

/// Children of nested `Bold` nodes spliced into the parent list.
pub open spec fn flatten_bold(c: Seq<NodeV>) -> Seq<NodeV>
    decreases c.len(),
{
    if c.len() == 0 {
        Seq::empty()
    } else {
        flatten_bold(c.drop_last()) + match c.last() {
            NodeV::Bold(k, _) => k,
            other => seq![other],
        }
    }
}

/// Legacy GFM 0.29 emphasis: inside every `Bold`, nested `Bold` children
/// are flattened (after normalizing them); `Italic`, `Strikethrough` and
/// `Link` children are normalized; other nodes stay.
pub open spec fn legacy_norm(c: Seq<NodeV>) -> Seq<NodeV>
    decreases c, 1nat,
{
    if c.len() == 0 {
        Seq::empty()
    } else {
        legacy_norm(c.drop_last()).push(legacy_norm_node(c.last()))
    }
}

pub open spec fn legacy_norm_node(n: NodeV) -> NodeV
    decreases n, 0nat,
{
    match n {
        NodeV::Bold(k, sp) => NodeV::Bold(flatten_bold(legacy_norm(k)), sp),
        NodeV::Italic(k, sp) => NodeV::Italic(legacy_norm(k), sp),
        NodeV::Strikethrough(k, sp) => NodeV::Strikethrough(legacy_norm(k), sp),
        NodeV::Link(h, t, k, sp) => NodeV::Link(h, t, legacy_norm(k), sp),
        other => other,
    }
}

/// No strong emphasis directly inside strong emphasis, at any depth that
/// goes through emphasis and links.
pub open spec fn strong_flat(n: NodeV) -> bool
    decreases n, 0nat,
{
    match n {
        NodeV::Bold(k, _) => all_flat(k) && no_bold(k),
        NodeV::Italic(k, _) => all_flat(k),
        NodeV::Strikethrough(k, _) => all_flat(k),
        NodeV::Link(_, _, k, _) => all_flat(k),
        _ => true,
    }
}

/// Every node of `c` is `strong_flat`.
pub open spec fn all_flat(c: Seq<NodeV>) -> bool
    decreases c, 1nat,
{
    if c.len() == 0 {
        true
    } else {
        all_flat(c.drop_last()) && strong_flat(c.last())
    }
}

pub open spec fn no_bold(c: Seq<NodeV>) -> bool {
    forall|i: int| 0 <= i < c.len() ==> !(#[trigger] c[i] is Bold)
}

proof fn lemma_all_flat_add(a: Seq<NodeV>, b: Seq<NodeV>)
    ensures
        all_flat(a + b) == (all_flat(a) && all_flat(b)),
    decreases b.len(),
{
    if b.len() == 0 {
        assert(a + b =~= a);
    } else {
        assert((a + b).drop_last() =~= a + b.drop_last());
        lemma_all_flat_add(a, b.drop_last());
    }
}

proof fn lemma_all_flat_index(c: Seq<NodeV>, i: int)
    requires
        all_flat(c),
        0 <= i < c.len(),
    ensures
        strong_flat(c[i]),
    decreases c.len(),
{
    if i < c.len() - 1 {
        lemma_all_flat_index(c.drop_last(), i);
    }
}

proof fn lemma_flatten_flat(c: Seq<NodeV>)
    requires
        all_flat(c),
    ensures
        all_flat(flatten_bold(c)),
        no_bold(flatten_bold(c)),
    decreases c.len(),
{
    if c.len() > 0 {
        lemma_flatten_flat(c.drop_last());
        let rest = flatten_bold(c.drop_last());
        assert(strong_flat(c.last()));
        match c.last() {
            NodeV::Bold(k, _) => {
                assert(flatten_bold(c) == rest + k);
                lemma_all_flat_add(rest, k);
                assert forall|i: int| 0 <= i < (rest + k).len() implies !(#[trigger] (rest + k)[i] is Bold) by {
                    if i < rest.len() {
                        assert((rest + k)[i] == rest[i]);
                    } else {
                        assert((rest + k)[i] == k[i - rest.len()]);
                    }
                }
            },
            other => {
                let one = seq![other];
                assert(flatten_bold(c) == rest + one);
                assert(one.drop_last() =~= Seq::<NodeV>::empty());
                assert(all_flat(Seq::<NodeV>::empty()));
                assert(one.last() == other);
                assert(all_flat(one));
                lemma_all_flat_add(rest, one);
                assert forall|i: int| 0 <= i < (rest + one).len() implies !(#[trigger] (rest + one)[i] is Bold) by {
                    if i < rest.len() {
                        assert((rest + one)[i] == rest[i]);
                    } else {
                        assert((rest + one)[i] == other);
                    }
                }
            },
        }
    }
}

proof fn lemma_norm_node_flat(n: NodeV)
    ensures
        strong_flat(legacy_norm_node(n)),
    decreases n, 0nat,
{
    match n {
        NodeV::Bold(k, _) => {
            lemma_norm_list_flat(k);
            lemma_flatten_flat(legacy_norm(k));
        },
        NodeV::Italic(k, _) => lemma_norm_list_flat(k),
        NodeV::Strikethrough(k, _) => lemma_norm_list_flat(k),
        NodeV::Link(_, _, k, _) => lemma_norm_list_flat(k),
        _ => {},
    }
}

proof fn lemma_norm_list_flat(c: Seq<NodeV>)
    ensures
        all_flat(legacy_norm(c)),
    decreases c, 1nat,
{
    if c.len() > 0 {
        lemma_norm_list_flat(c.drop_last());
        lemma_norm_node_flat(c.last());
        assert(legacy_norm(c).drop_last() =~= legacy_norm(c.drop_last()));
    }
}

/// Legacy normalization does what it is for: afterwards no strong emphasis
/// sits directly inside strong emphasis, at any depth that goes through
/// emphasis and links.
pub proof fn law_legacy_strong_flat(c: Seq<NodeV>)
    ensures
        forall|i: int| 0 <= i < legacy_norm(c).len() ==> strong_flat(#[trigger] legacy_norm(c)[i]),
{
    lemma_norm_list_flat(c);
    assert forall|i: int| 0 <= i < legacy_norm(c).len() implies strong_flat(#[trigger] legacy_norm(c)[i]) by {
        lemma_all_flat_index(legacy_norm(c), i);
    }
}

/// Replaces each nested `Bold` child by its children.
pub fn flatten_nested_bold(children: &mut Vec<Node>)
    ensures
        nvs(final(children)@) == flatten_bold(nvs(old(children)@)),
{
    let mut taken: Vec<Node> = Vec::new();
    std::mem::swap(&mut taken, children);
    let ghost src = taken@;
    let mut flat: Vec<Node> = Vec::new();
    for child in it: taken.into_iter()
        invariant
            it.seq() == src,
            nvs(flat@) == flatten_bold(nvs(src.take(it.index() as int))),
    {
        let ghost k = it.index() as int;
        proof {
            assert(src.take(k + 1).drop_last() =~= src.take(k));
            assert(src.take(k + 1).last() == child);
            lemma_nvs_push(src.take(k), child);
            assert(src.take(k).push(child) =~= src.take(k + 1));
            assert(nvs(src.take(k + 1)).drop_last() =~= nvs(src.take(k)));
        }
        let ghost before = flat@;
        match child {
            Node::Bold(inner) => {
                let mut kids = inner.children;
                let ghost ks = kids@;
                flat.append(&mut kids);
                proof {
                    assert(flat@ =~= before + ks);
                    lemma_nvs_add(before, ks);
                }
            },
            other => {
                flat.push(other);
                proof {
                    lemma_nvs_push(before, other);
                }
            },
        }
    }
    assert(src.take(src.len() as int) =~= src);
    *children = flat;
}

fn legacy_normalize_node(n: Node) -> (r: Node)
    ensures
        nv(r) == legacy_norm_node(nv(n)),
    decreases n, 0nat,
{
    match n {
        Node::Bold(inline) => {
            let mut kids = legacy_normalize_vec(inline.children);
            flatten_nested_bold(&mut kids);
            Node::Bold(Inline { children: kids, span: inline.span })
        },
        Node::Italic(inline) => Node::Italic(
            Inline { children: legacy_normalize_vec(inline.children), span: inline.span },
        ),
        Node::Strikethrough(inline) => Node::Strikethrough(
            Inline { children: legacy_normalize_vec(inline.children), span: inline.span },
        ),
        Node::Link(link) => Node::Link(
            Link {
                href: link.href,
                title: link.title,
                children: legacy_normalize_vec(link.children),
                span: link.span,
            },
        ),
        other => other,
    }
}

fn legacy_normalize_vec(v: Vec<Node>) -> (r: Vec<Node>)
    ensures
        nvs(r@) == legacy_norm(nvs(v@)),
    decreases v, 1nat,
{
    let ghost src = v@;
    let mut out: Vec<Node> = Vec::new();
    for child in it: v.into_iter()
        invariant
            it.seq() == src,
            src == v@,
            nvs(out@) == legacy_norm(nvs(src.take(it.index() as int))),
    {
        let ghost k = it.index() as int;
        proof {
            assert(src.take(k + 1).drop_last() =~= src.take(k));
            assert(src.take(k + 1).last() == child);
            lemma_nvs_push(src.take(k), child);
            assert(src.take(k).push(child) =~= src.take(k + 1));
            assert(nvs(src.take(k + 1)).drop_last() =~= nvs(src.take(k)));
        }
        let ghost before = out@;
        let m = legacy_normalize_node(child);
        out.push(m);
        proof {
            lemma_nvs_push(before, m);
        }
    }
    assert(src.take(src.len() as int) =~= src);
    out
}

/// Legacy GFM 0.29 emphasis: flatten redundant nested `<strong>`.
pub fn normalize_legacy_gfm_emphasis(nodes: &mut Vec<Node>)
    ensures
        nvs(final(nodes)@) == legacy_norm(nvs(old(nodes)@)),
{
    let mut taken: Vec<Node> = Vec::new();
    std::mem::swap(&mut taken, nodes);
    *nodes = legacy_normalize_vec(taken);
}


// ---------------------------------------------------------------------
// List items
// ---------------------------------------------------------------------

/// Block-level node kinds.
pub open spec fn is_block_v(n: NodeV) -> bool {
    n is Paragraph || n is List || n is Blockquote || n is CodeBlock || n is Heading
        || n is HorizontalRule || n is Table || n is Html
}

pub fn is_block_node(n: &Node) -> (r: bool)
    ensures
        r == is_block_v(n@),
{
    match n {
        Node::Paragraph(_) | Node::List(_) | Node::Blockquote(_) | Node::CodeBlock(_)
        | Node::Heading(_) | Node::HorizontalRule(_) | Node::Table(_) | Node::Html(_) => true,
        _ => false,
    }
}

/// `n` with its item children replaced through `f` when it is a list item
/// or task-list item; any other node unchanged.
pub open spec fn map_item(n: NodeV, f: spec_fn(Seq<NodeV>) -> Seq<NodeV>) -> NodeV {
    match n {
        NodeV::ListItem(c, sp) => NodeV::ListItem(f(c), sp),
        NodeV::TaskListItem(k, c, sp) => NodeV::TaskListItem(k, f(c), sp),
        other => other,
    }
}

pub open spec fn is_item(n: NodeV) -> bool {
    n is ListItem || n is TaskListItem
}

/// The children of a list item.
pub open spec fn item_kids(n: NodeV) -> Seq<NodeV> {
    match n {
        NodeV::ListItem(c, _) => c,
        NodeV::TaskListItem(_, c, _) => c,
        _ => Seq::empty(),
    }
}

/// Appends `child` to the children of a `ListItem` / `TaskListItem`.
pub fn append_to_item(item: &mut Node, child: Node)
    ensures
        final(item)@ == map_item(old(item)@, |c: Seq<NodeV>| c.push(child@)),
{
    match item {
        Node::ListItem(li) => {
            let ghost before = li.children@;
            li.children.push(child);
            proof {
                lemma_nvs_push(before, child);
            }
        },
        Node::TaskListItem(t) => {
            let ghost before = t.children@;
            t.children.push(child);
            proof {
                lemma_nvs_push(before, child);
            }
        },
        _ => {},
    }
}

/// Index of the first block node at or after `i` (or the length).
pub open spec fn first_block_from(c: Seq<NodeV>, i: int) -> int
    decreases c.len() - i,
{
    if i < 0 || i >= c.len() {
        c.len() as int
    } else if is_block_v(c[i]) {
        i
    } else {
        first_block_from(c, i + 1)
    }
}

/// Loose-list shaping: the leading run of inline children is wrapped in a
/// paragraph, unless the item already starts with a paragraph or starts
/// with a block.
pub open spec fn loosened(c: Seq<NodeV>, span: Span) -> Seq<NodeV> {
    if c.len() > 0 && c[0] is Paragraph {
        c
    } else {
        let k = first_block_from(c, 0);
        if k == 0 {
            c
        } else {
            seq![NodeV::Paragraph(c.take(k), span)] + c.skip(k)
        }
    }
}

proof fn lemma_first_block_range(c: Seq<NodeV>, i: int)
    requires
        0 <= i <= c.len(),
    ensures
        i <= first_block_from(c, i) <= c.len(),
        first_block_from(c, i) < c.len() ==> is_block_v(c[first_block_from(c, i)]),
        forall|j: int| i <= j < first_block_from(c, i) ==> !is_block_v(#[trigger] c[j]),
    decreases c.len() - i,
{
    if i < c.len() && !is_block_v(c[i]) {
        lemma_first_block_range(c, i + 1);
    }
}

fn loosen_children(kids: &mut Vec<Node>, span: &Span)
    ensures
        nvs(final(kids)@) == loosened(nvs(old(kids)@), *span),
{
    let ghost c = nvs(kids@);
    if kids.len() > 0 && matches!(kids[0], Node::Paragraph(_)) {
        return;
    }
    let mut split: usize = 0;
    while split < kids.len() && !is_block_node(&kids[split])
        invariant
            split <= kids.len(),
            c == nvs(kids@),
            first_block_from(c, 0) == first_block_from(c, split as int),
        decreases kids.len() - split,
    {
        split += 1;
    }
    if split == 0 {
        return;
    }
    let ghost old_kids = kids@;
    let trailing = kids.split_off(split);
    let mut leading: Vec<Node> = Vec::new();
    std::mem::swap(&mut leading, kids);
    proof {
        assert(leading@ =~= old_kids.take(split as int));
        assert(trailing@ =~= old_kids.skip(split as int));
    }
    let para = Node::Paragraph(Paragraph { children: leading, span: crate::ast::clone_span(span) });
    kids.push(para);
    let mut trailing = trailing;
    let ghost t = trailing@;
    kids.append(&mut trailing);
    proof {
        assert(kids@ =~= seq![para] + t);
        lemma_nvs_add(seq![para], t);
        lemma_nvs_take_skip(old_kids, split as int);
        assert(nvs(seq![para]) =~= seq![nv(para)]);
    }
}

proof fn lemma_nvs_take_skip(s: Seq<Node>, k: int)
    requires
        0 <= k <= s.len(),
    ensures
        nvs(s.take(k)) == nvs(s).take(k),
        nvs(s.skip(k)) == nvs(s).skip(k),
{
    assert(nvs(s.take(k)) =~= nvs(s).take(k));
    assert(nvs(s.skip(k)) =~= nvs(s).skip(k));
}

/// Loosening twice is loosening once, and it loses no child: the wrapped
/// run followed by the rest is the item's old children.
pub proof fn law_loosening_settles(c: Seq<NodeV>, span: Span)
    ensures
        loosened(loosened(c, span), span) == loosened(c, span),
        loosened(c, span) == c || (loosened(c, span)[0] matches NodeV::Paragraph(run, _) && run
            + loosened(c, span).skip(1) == c),
{
    let r = loosened(c, span);
    if r != c {
        let k = first_block_from(c, 0);
        lemma_first_block_range(c, 0);
        assert(r[0] == NodeV::Paragraph(c.take(k), span));
        assert(r.skip(1) =~= c.skip(k));
        assert(c.take(k) + c.skip(k) =~= c);
    }
}

/// Wraps the leading inline run of a list item in a `Paragraph` so loose
/// list formatting applies. Existing block children stay where they are.
pub fn ensure_loose_item(item: &mut Node, span: &Span)
    ensures
        final(item)@ == map_item(old(item)@, |c: Seq<NodeV>| loosened(c, *span)),
{
    match item {
        Node::ListItem(li) => loosen_children(&mut li.children, span),
        Node::TaskListItem(t) => loosen_children(&mut t.children, span),
        _ => {},
    }
}


/// Index of the last block node before `i`, if any.
pub open spec fn last_block_before(c: Seq<NodeV>, i: int) -> Option<int>
    decreases i,
{
    if i <= 0 || i > c.len() {
        None
    } else if is_block_v(c[i - 1]) {
        Some(i - 1)
    } else {
        last_block_before(c, i - 1)
    }
}

/// A continuation line of a list item without a blank line before it:
/// `None` when the last block child is not a heading; otherwise the
/// children with a soft break (when something follows the last block, or
/// when there is no block and the item is not empty) and then `inl`.
pub open spec fn continued(c: Seq<NodeV>, inl: Seq<NodeV>, span: Span) -> Option<Seq<NodeV>> {
    match last_block_before(c, c.len() as int) {
        Some(b) => if !(c[b] is Heading) {
            None
        } else {
            Some((if b + 1 < c.len() { c.push(NodeV::SoftBreak(span)) } else { c }) + inl)
        },
        None => Some((if c.len() > 0 { c.push(NodeV::SoftBreak(span)) } else { c }) + inl),
    }
}

proof fn lemma_last_block(c: Seq<NodeV>, i: int)
    requires
        0 <= i <= c.len(),
    ensures
        last_block_before(c, i) matches Some(b) ==> 0 <= b < i && is_block_v(c[b]) && forall|
            j: int,
        | b < j < i ==> !is_block_v(#[trigger] c[j]),
        last_block_before(c, i) is None ==> forall|j: int| 0 <= j < i ==> !is_block_v(#[trigger] c[j]),
    decreases i,
{
    if i > 0 && !is_block_v(c[i - 1]) {
        lemma_last_block(c, i - 1);
    }
}

fn continue_children(kids: &mut Vec<Node>, inline: &mut Vec<Node>, span: &Span) -> (r: bool)
    ensures
        r == continued(nvs(old(kids)@), nvs(old(inline)@), *span) is Some,
        r ==> nvs(final(kids)@) == continued(nvs(old(kids)@), nvs(old(inline)@), *span)->0,
        r ==> final(inline)@.len() == 0,
        !r ==> final(kids)@ == old(kids)@ && final(inline)@ == old(inline)@,
{
    let ghost c = nvs(kids@);
    let ghost inl = nvs(inline@);
    let mut i = kids.len();
    while i > 0 && !is_block_node(&kids[i - 1])
        invariant
            i <= kids.len(),
            c == nvs(kids@),
            last_block_before(c, c.len() as int) == last_block_before(c, i as int),
        decreases i,
    {
        i -= 1;
    }
    proof {
        lemma_last_block(c, c.len() as int);
    }
    if i > 0 {
        let last_block = i - 1;
        if !matches!(kids[last_block], Node::Heading(_)) {
            return false;
        }
        assert(last_block_before(c, c.len() as int) == Some(last_block as int));
        let mut j = last_block + 1;
        while j < kids.len()
            invariant
                last_block < j <= kids.len(),
                c == nvs(kids@),
                forall|m: int| last_block < m < c.len() ==> !is_block_v(#[trigger] c[m]),
                forall|m: int| last_block < m < j ==> !is_block_v(#[trigger] c[m]),
            decreases kids.len() - j,
        {
            if is_block_node(&kids[j]) {
                assert(c[j as int] == nv(kids@[j as int]));
                return false;
            }
            j += 1;
        }
        if last_block + 1 < kids.len() {
            let ghost before = kids@;
            kids.push(Node::SoftBreak(BreakNode { span: crate::ast::clone_span(span) }));
            proof {
                lemma_nvs_push(before, kids@.last());
            }
        }
    } else {
        if kids.len() > 0 {
            let ghost before = kids@;
            kids.push(Node::SoftBreak(BreakNode { span: crate::ast::clone_span(span) }));
            proof {
                lemma_nvs_push(before, kids@.last());
            }
        }
    }
    let ghost mid = kids@;
    let ghost moved = inline@;
    kids.append(inline);
    proof {
        assert(kids@ =~= mid + moved);
        lemma_nvs_add(mid, moved);
    }
    true
}

/// A continuation line without a blank line stays inside the current
/// item's paragraph text; it does not make the item loose.
pub fn append_inline_continuation(item: &mut Node, inline: &mut Vec<Node>, span: &Span) -> (r: bool)
    ensures
        r == (is_item(old(item)@) && continued(item_kids(old(item)@), nvs(old(inline)@), *span) is Some),
        r ==> final(item)@ == map_item(
            old(item)@,
            |c: Seq<NodeV>| continued(c, nvs(old(inline)@), *span)->0,
        ),
        r ==> final(inline)@.len() == 0,
        !r ==> final(item)@ == old(item)@ && final(inline)@ == old(inline)@,
{
    match item {
        Node::ListItem(li) => continue_children(&mut li.children, inline, span),
        Node::TaskListItem(t) => continue_children(&mut t.children, inline, span),
        _ => false,
    }
}


// ---------------------------------------------------------------------
// Trailing blanks and breaks
// ---------------------------------------------------------------------

/// Number of trailing spaces and tabs.
pub open spec fn trailing_blanks(v: Seq<char>) -> nat
    decreases v.len(),
{
    if v.len() > 0 && (v.last() == ' ' || v.last() == '\t') {
        1 + trailing_blanks(v.drop_last())
    } else {
        0
    }
}

/// `v` without its trailing spaces and tabs.
pub open spec fn trim_blank_end(v: Seq<char>) -> Seq<char> {
    v.take(v.len() - trailing_blanks(v))
}

proof fn lemma_trailing_blanks(v: Seq<char>)
    ensures
        trailing_blanks(v) <= v.len(),
    decreases v.len(),
{
    if v.len() > 0 && (v.last() == ' ' || v.last() == '\t') {
        lemma_trailing_blanks(v.drop_last());
    }
}

/// Trailing text nodes lose their trailing spaces and tabs; text nodes
/// that become empty are dropped and the next one is looked at.
pub open spec fn trim_tail(c: Seq<NodeV>) -> Seq<NodeV>
    decreases c.len(),
{
    if c.len() > 0 && c.last() is Text {
        let v = c.last()->Text_0;
        let sp = c.last()->Text_1;
        let t = trim_blank_end(v);
        if t.len() == 0 {
            trim_tail(c.drop_last())
        } else if t.len() != v.len() {
            c.drop_last().push(NodeV::Text(t, sp))
        } else {
            c
        }
    } else {
        c
    }
}

pub proof fn lemma_trim_tail_len(c: Seq<NodeV>)
    ensures
        trim_tail(c).len() <= c.len(),
    decreases c.len(),
{
    if c.len() > 0 && c.last() is Text {
        let t = trim_blank_end(c.last()->Text_0);
        if t.len() == 0 {
            lemma_trim_tail_len(c.drop_last());
        }
    }
}

fn trailing_blank_count(v: &Vec<char>) -> (n: usize)
    ensures
        n == trailing_blanks(v@),
        n <= v.len(),
{
    let mut k = v.len();
    assert(v@.take(k as int) =~= v@);
    while k > 0 && (v[k - 1] == ' ' || v[k - 1] == '\t')
        invariant
            k <= v.len(),
            trailing_blanks(v@) == (v.len() - k) + trailing_blanks(v@.take(k as int)),
        decreases k,
    {
        proof {
            assert(v@.take(k as int).drop_last() =~= v@.take(k - 1));
            assert(v@.take(k as int).last() == v@[k - 1]);
        }
        k -= 1;
    }
    proof {
        if k > 0 {
            assert(v@.take(k as int).last() == v@[k - 1]);
        }
    }
    v.len() - k
}

/// Applies `trim_tail` to `kids`.
fn trim_text_tail(kids: &mut Vec<Node>)
    ensures
        nvs(final(kids)@) == trim_tail(nvs(old(kids)@)),
{
    loop
        invariant
            trim_tail(nvs(old(kids)@)) == trim_tail(nvs(kids@)),
        ensures
            trim_tail(nvs(old(kids)@)) == nvs(kids@),
        decreases kids@.len(),
    {
        let n = kids.len();
        if n == 0 {
            return;
        }
        let ghost before = kids@;
        let last = kids.pop().unwrap();
        proof {
            assert(before.drop_last() =~= kids@);
            lemma_nvs_push(kids@, last);
            assert(before =~= kids@.push(last));
        }
        match last {
            Node::Text(t) => {
                let v = crate::text::chars_of(t.value.as_str());
                let k = trailing_blank_count(&v);
                let keep = v.len() - k;
                if keep == 0 {
                    proof {
                        let cv = nvs(before);
                        assert(cv.last() == NodeV::Text(t.value@, t.span));
                        assert(cv.drop_last() =~= nvs(kids@));
                        assert(trim_blank_end(t.value@).len() == 0);
                    }
                    continue;
                } else if k != 0 {
                    let trimmed = crate::text::string_of_range(&v, 0, keep);
                    let ghost mid = kids@;
                    let node = Node::Text(Text { value: trimmed, span: t.span });
                    kids.push(node);
                    proof {
                        lemma_nvs_push(mid, node);
                    }
                    return;
                } else {
                    let ghost mid = kids@;
                    let node = Node::Text(t);
                    kids.push(node);
                    proof {
                        lemma_nvs_push(mid, node);
                        assert(kids@ =~= before);
                    }
                    return;
                }
            },
            other => {
                let ghost mid = kids@;
                kids.push(other);
                proof {
                    lemma_nvs_push(mid, other);
                    assert(kids@ =~= before);
                }
                return;
            },
        }
    }
}

/// Turning an inline-only list item into a setext heading: the trailing
/// text is trimmed; an item that is empty (before or after) or holds a
/// block is not promoted.
pub open spec fn setext_promoted(c: Seq<NodeV>, level: u8, span: Span) -> (bool, Seq<NodeV>) {
    if c.len() == 0 || exists|j: int| 0 <= j < c.len() && is_block_v(#[trigger] c[j]) {
        (false, c)
    } else {
        let c2 = trim_tail(c);
        if c2.len() == 0 {
            (false, c2)
        } else {
            (true, seq![NodeV::Heading(level, c2, span, None)])
        }
    }
}

fn promote_children(kids: &mut Vec<Node>, level: u8, span: &Span) -> (r: bool)
    ensures
        (r, nvs(final(kids)@)) == setext_promoted(nvs(old(kids)@), level, *span),
{
    let ghost c = nvs(kids@);
    if kids.len() == 0 {
        return false;
    }
    let mut i: usize = 0;
    while i < kids.len()
        invariant
            i <= kids.len(),
            c == nvs(kids@),
            forall|j: int| 0 <= j < i ==> !is_block_v(#[trigger] c[j]),
        decreases kids.len() - i,
    {
        if is_block_node(&kids[i]) {
            assert(c[i as int] == nv(kids@[i as int]));
            return false;
        }
        i += 1;
    }
    trim_text_tail(kids);
    if kids.len() == 0 {
        return false;
    }
    let mut heading_children: Vec<Node> = Vec::new();
    std::mem::swap(&mut heading_children, kids);
    let h = Node::Heading(
        Heading { level, children: heading_children, span: crate::ast::clone_span(span), id: None },
    );
    kids.push(h);
    proof {
        lemma_nvs_push(Seq::empty(), h);
        assert(kids@ =~= Seq::<Node>::empty().push(h));
    }
    true
}

/// Converts an inline-only list item into a setext heading. Only the
/// leading inline run is folded.
pub fn promote_item_to_setext_heading(item: &mut Node, level: u8, span: &Span) -> (r: bool)
    ensures
        r == (is_item(old(item)@) && setext_promoted(item_kids(old(item)@), level, *span).0),
        is_item(old(item)@) ==> final(item)@ == map_item(
            old(item)@,
            |c: Seq<NodeV>| setext_promoted(c, level, *span).1,
        ),
        !is_item(old(item)@) ==> final(item)@ == old(item)@,
{
    match item {
        Node::ListItem(li) => promote_children(&mut li.children, level, span),
        Node::TaskListItem(t) => promote_children(&mut t.children, level, span),
        _ => false,
    }
}


/// A text value that ends with a backslash.
pub open spec fn ends_backslash(v: Seq<char>) -> bool {
    v.len() > 0 && v.last() == '\\'
}

/// A text node right before a hard break that is not the last node loses
/// a trailing backslash (the backslash produced the break).
pub open spec fn break_fixed_at(c: Seq<NodeV>, j: int) -> NodeV {
    if j + 2 < c.len() && c[j + 1] is HardBreak && c[j] is Text && ends_backslash(c[j]->Text_0) {
        NodeV::Text(c[j]->Text_0.drop_last(), c[j]->Text_1)
    } else {
        c[j]
    }
}

pub open spec fn break_fixed(c: Seq<NodeV>) -> Seq<NodeV> {
    Seq::new(c.len(), |j: int| break_fixed_at(c, j))
}

/// Trailing hard breaks are dropped, each taking the blank text before it.
pub open spec fn drop_trailing_breaks(c: Seq<NodeV>) -> Seq<NodeV>
    decreases c.len(),
{
    if c.len() > 0 && c.last() is HardBreak {
        proof {
            lemma_trim_tail_len(c.drop_last());
        }
        drop_trailing_breaks(trim_tail(c.drop_last()))
    } else {
        c
    }
}

/// Only spaces and tabs.
pub open spec fn all_blank(v: Seq<char>) -> bool {
    forall|i: int| 0 <= i < v.len() ==> (#[trigger] v[i] == ' ' || v[i] == '\t')
}

/// Trailing blank text and soft breaks render as nothing (CommonMark 4.8).
pub open spec fn drop_blank_tail(c: Seq<NodeV>) -> Seq<NodeV>
    decreases c.len(),
{
    if c.len() > 0 && ((c.last() is Text && all_blank(c.last()->Text_0)) || c.last() is SoftBreak) {
        drop_blank_tail(c.drop_last())
    } else {
        c
    }
}

proof fn lemma_no_blank_tail(c: Seq<NodeV>)
    ensures
        ({
            let r = drop_blank_tail(c);
            r.len() > 0 ==> !(r.last() is SoftBreak) && !(r.last() is Text && all_blank(r.last()->Text_0))
        }),
    decreases c.len(),
{
    if c.len() > 0 && ((c.last() is Text && all_blank(c.last()->Text_0)) || c.last() is SoftBreak) {
        lemma_no_blank_tail(c.drop_last());
    }
}

/// Hard-break cleanup of a paragraph's inline children.
pub open spec fn breaks_finalized(c: Seq<NodeV>) -> Seq<NodeV> {
    drop_blank_tail(drop_trailing_breaks(break_fixed(c)))
}

/// Finalized inline content never ends with a soft break or with text that
/// is only spaces and tabs.
pub proof fn law_finalized_tail(c: Seq<NodeV>)
    ensures
        ({
            let r = breaks_finalized(c);
            r.len() > 0 ==> !(r.last() is SoftBreak) && !(r.last() is Text && all_blank(r.last()->Text_0))
        }),
{
    lemma_no_blank_tail(drop_trailing_breaks(break_fixed(c)));
}

fn text_all_blank(t: &Text) -> (r: bool)
    ensures
        r == all_blank(t.value@),
{
    let v = crate::text::chars_of(t.value.as_str());
    let mut i: usize = 0;
    while i < v.len()
        invariant
            i <= v.len(),
            v@ == t.value@,
            forall|j: int| 0 <= j < i ==> (#[trigger] v@[j] == ' ' || v@[j] == '\t'),
        decreases v.len() - i,
    {
        if !(v[i] == ' ' || v[i] == '\t') {
            return false;
        }
        i += 1;
    }
    true
}

/// A hard break needs content after it (CommonMark 6.7): strip the `\`
/// before a mid-paragraph break, drop trailing breaks (with the blank text
/// before them), then drop trailing blank text and soft breaks.
pub fn finalize_inline_breaks(children: &mut Vec<Node>)
    ensures
        nvs(final(children)@) == breaks_finalized(nvs(old(children)@)),
{
    let ghost c0 = nvs(children@);
    // Which text nodes lose their trailing backslash.
    let mut fix: Vec<bool> = Vec::new();
    let n = children.len();
    let mut j: usize = 0;
    while j < n
        invariant
            n == children.len(),
            c0 == nvs(children@),
            j <= n,
            fix@.len() == j,
            forall|m: int| 0 <= m < j ==> #[trigger] fix@[m] == (break_fixed_at(c0, m) != c0[m]),
        decreases n - j,
    {
        let mut f = false;
        if n - j > 2 {
            if let Node::HardBreak(_) = &children[j + 1] {
                if let Node::Text(t) = &children[j] {
                    let v = crate::text::chars_of(t.value.as_str());
                    if v.len() > 0 && v[v.len() - 1] == '\\' {
                        f = true;
                        proof {
                            assert(c0[j as int] == nv(children@[j as int]));
                            assert(c0[j + 1] == nv(children@[j + 1]));
                            assert(t.value@.drop_last() != t.value@);
                        }
                    }
                }
            }
        }
        proof {
            assert(c0[j as int] == nv(children@[j as int]));
            if j + 2 < n {
                assert(c0[j + 1] == nv(children@[j + 1]));
            }
        }
        fix.push(f);
        j += 1;
    }
    let mut taken: Vec<Node> = Vec::new();
    std::mem::swap(&mut taken, children);
    let ghost src = taken@;
    let mut out: Vec<Node> = Vec::new();
    let mut k: usize = 0;
    for node in it: taken.into_iter()
        invariant
            it.seq() == src,
            k == it.index(),
            k <= src.len(),
            src.len() == n,
            c0 == nvs(src),
            fix@.len() == src.len(),
            forall|m: int| 0 <= m < src.len() ==> #[trigger] fix@[m] == (break_fixed_at(c0, m) != c0[m]),
            nvs(out@) == break_fixed(c0).take(it.index() as int),
    {
        let ghost before = out@;
        proof {
            assert(c0[k as int] == nv(node));
        }
        if fix[k] {
            match node {
                Node::Text(t) => {
                    let v = crate::text::chars_of(t.value.as_str());
                    let trimmed = crate::text::string_of_range(&v, 0, v.len() - 1);
                    let m = Node::Text(Text { value: trimmed, span: t.span });
                    out.push(m);
                    proof {
                        lemma_nvs_push(before, m);
                        assert(trimmed@ =~= t.value@.drop_last());
                    }
                },
                other => {
                    out.push(other);
                    proof {
                        lemma_nvs_push(before, other);
                    }
                },
            }
        } else {
            out.push(node);
            proof {
                lemma_nvs_push(before, node);
            }
        }
        proof {
            assert(nvs(out@) =~= break_fixed(c0).take(k + 1));
        }
        k += 1;
    }
    assert(break_fixed(c0).take(src.len() as int) =~= break_fixed(c0));
    // Trailing hard breaks.
    loop
        invariant
            drop_trailing_breaks(break_fixed(c0)) == drop_trailing_breaks(nvs(out@)),
        ensures
            drop_trailing_breaks(break_fixed(c0)) == nvs(out@),
        decreases out@.len(),
    {
        let len = out.len();
        if len == 0 {
            break;
        }
        if !matches!(out[len - 1], Node::HardBreak(_)) {
            proof {
                assert(nvs(out@).last() == nv(out@[len - 1]));
            }
            break;
        }
        let ghost before = out@;
        out.pop();
        proof {
            assert(before.drop_last() =~= out@);
            assert(nvs(before).drop_last() =~= nvs(out@));
            assert(nvs(before).last() == nv(before[len - 1]));
            lemma_trim_tail_len(nvs(out@));
        }
        trim_text_tail(&mut out);
    }
    // Trailing blank text and soft breaks.
    loop
        invariant
            breaks_finalized(c0) == drop_blank_tail(nvs(out@)),
        ensures
            breaks_finalized(c0) == nvs(out@),
        decreases out@.len(),
    {
        let len = out.len();
        if len == 0 {
            break;
        }
        let drop = match &out[len - 1] {
            Node::Text(t) => text_all_blank(t),
            Node::SoftBreak(_) => true,
            _ => false,
        };
        proof {
            assert(nvs(out@).last() == nv(out@[len - 1]));
        }
        if !drop {
            break;
        }
        let ghost before = out@;
        out.pop();
        proof {
            assert(nvs(before).drop_last() =~= nvs(out@));
        }
    }
    *children = out;
}

// ---------------------------------------------------------------------
// JSX children layout
// ---------------------------------------------------------------------

/// Only `White_Space` characters.
pub open spec fn all_white(v: Seq<char>) -> bool {
    forall|i: int| 0 <= i < v.len() ==> is_white_space(#[trigger] v[i])
}

/// Only whitespace nodes.
pub open spec fn all_ws_nodes(k: Seq<NodeV>) -> bool {
    forall|i: int| 0 <= i < k.len() ==> ws_node(#[trigger] k[i])
}

/// Whitespace-only text, or a line break.
pub open spec fn ws_node(n: NodeV) -> bool {
    match n {
        NodeV::Text(v, _) => all_white(v),
        NodeV::SoftBreak(_) => true,
        NodeV::HardBreak(_) => true,
        _ => false,
    }
}

pub fn is_whitespace_text(n: &Node) -> (r: bool)
    ensures
        r == ws_node(n@),
{
    match n {
        Node::Text(t) => {
            assert(n@ == NodeV::Text(t.value@, t.span));
            let v = crate::text::chars_of(t.value.as_str());
            let mut i: usize = 0;
            while i < v.len()
                invariant
                    i <= v.len(),
                    v@ == t.value@,
                    n@ == NodeV::Text(t.value@, t.span),
                    forall|j: int| 0 <= j < i ==> is_white_space(#[trigger] v@[j]),
                decreases v.len() - i,
            {
                if !is_whitespace(v[i]) {
                    assert(t.value@[i as int] == v@[i as int]);
                    assert(!is_white_space(t.value@[i as int]));
                    return false;
                }
                i += 1;
            }
            true
        },
        Node::SoftBreak(_) | Node::HardBreak(_) => true,
        _ => false,
    }
}

pub open spec fn is_jsx_v(n: NodeV) -> bool {
    n is JsxElement || n is JsxSelfClosing || n is JsxFragment
}

/// Children that may sit between JSX block children.
pub open spec fn flow_child(n: NodeV) -> bool {
    ws_node(n) || is_jsx_v(n) || is_block_v(n)
}

/// Whether a flow child survives layout stripping.
pub open spec fn layout_keep(n: NodeV) -> bool {
    !ws_node(n) && match n {
        NodeV::Paragraph(k, _) => !all_ws_nodes(k),
        _ => true,
    }
}

pub open spec fn keep_layout(c: Seq<NodeV>) -> Seq<NodeV>
    decreases c.len(),
{
    if c.len() == 0 {
        c
    } else {
        keep_layout(c.drop_last()) + if layout_keep(c.last()) {
            seq![c.last()]
        } else {
            Seq::empty()
        }
    }
}

/// JSX layout whitespace: when every child is whitespace, a line break, a
/// JSX node or a block, whitespace children and whitespace-only
/// paragraphs are dropped; otherwise the children stay as they are.
pub open spec fn layout_stripped(c: Seq<NodeV>) -> Seq<NodeV> {
    if forall|i: int| 0 <= i < c.len() ==> flow_child(#[trigger] c[i]) {
        keep_layout(c)
    } else {
        c
    }
}

fn is_flow_child(n: &Node) -> (r: bool)
    ensures
        r == flow_child(n@),
{
    is_whitespace_text(n) || match n {
        Node::JsxElement(_) | Node::JsxSelfClosing(_) | Node::JsxFragment(_) => true,
        _ => is_block_node(n),
    }
}

fn keeps_in_layout(n: &Node) -> (r: bool)
    ensures
        r == layout_keep(n@),
{
    if is_whitespace_text(n) {
        return false;
    }
    match n {
        Node::Paragraph(p) => {
            assert(n@ == NodeV::Paragraph(nvs(p.children@), p.span));
            let mut i: usize = 0;
            while i < p.children.len()
                invariant
                    i <= p.children.len(),
                    n@ == NodeV::Paragraph(nvs(p.children@), p.span),
                    !ws_node(n@),
                    forall|j: int| 0 <= j < i ==> ws_node(#[trigger] nvs(p.children@)[j]),
                decreases p.children.len() - i,
            {
                if !is_whitespace_text(&p.children[i]) {
                    assert(nvs(p.children@)[i as int] == nv(p.children@[i as int]));
                    assert(!ws_node(nvs(p.children@)[i as int]));
                    return true;
                }
                assert(nvs(p.children@)[i as int] == nv(p.children@[i as int]));
                i += 1;
            }
            false
        },
        _ => true,
    }
}

/// Drops indentation and line-break noise between JSX block children.
pub fn strip_jsx_layout_whitespace(children: Vec<Node>) -> (r: Vec<Node>)
    ensures
        nvs(r@) == layout_stripped(nvs(children@)),
{
    let ghost c = nvs(children@);
    let mut i: usize = 0;
    while i < children.len()
        invariant
            i <= children.len(),
            c == nvs(children@),
            forall|j: int| 0 <= j < i ==> flow_child(#[trigger] c[j]),
        decreases children.len() - i,
    {
        assert(c[i as int] == nv(children@[i as int]));
        if !is_flow_child(&children[i]) {
            return children;
        }
        i += 1;
    }
    let ghost src = children@;
    let mut out: Vec<Node> = Vec::new();
    for node in it: children.into_iter()
        invariant
            it.seq() == src,
            c == nvs(src),
            nvs(out@) == keep_layout(c.take(it.index() as int)),
    {
        let ghost k = it.index() as int;
        proof {
            assert(c[k] == nv(node));
            assert(c.take(k + 1).drop_last() =~= c.take(k));
        }
        let ghost before = out@;
        if keeps_in_layout(&node) {
            out.push(node);
            proof {
                lemma_nvs_push(before, node);
            }
        }
    }
    assert(c.take(src.len() as int) =~= c);
    out
}

/// Paragraphs holding only JSX nodes (and whitespace), at least one, are
/// replaced by those JSX nodes.
pub open spec fn jsx_only(k: Seq<NodeV>) -> bool {
    &&& forall|i: int| 0 <= i < k.len() && !ws_node(#[trigger] k[i]) ==> is_jsx_v(k[i])
    &&& exists|i: int| 0 <= i < k.len() && is_jsx_v(#[trigger] k[i])
}

pub open spec fn jsx_of(k: Seq<NodeV>) -> Seq<NodeV>
    decreases k.len(),
{
    if k.len() == 0 {
        k
    } else {
        jsx_of(k.drop_last()) + if is_jsx_v(k.last()) {
            seq![k.last()]
        } else {
            Seq::empty()
        }
    }
}

pub open spec fn unwrap_piece(n: NodeV) -> Seq<NodeV> {
    match n {
        NodeV::Paragraph(k, _) => if jsx_only(k) {
            jsx_of(k)
        } else {
            seq![n]
        },
        _ => seq![n],
    }
}

pub open spec fn unwrap_all(c: Seq<NodeV>) -> Seq<NodeV>
    decreases c.len(),
{
    if c.len() == 0 {
        c
    } else {
        unwrap_all(c.drop_last()) + unwrap_piece(c.last())
    }
}

/// A single paragraph child is replaced by its children; otherwise each
/// JSX-only paragraph is replaced by its JSX nodes.
pub open spec fn jsx_unwrapped(c: Seq<NodeV>) -> Seq<NodeV> {
    if c.len() == 1 && c[0] is Paragraph {
        c[0]->Paragraph_0
    } else {
        unwrap_all(c)
    }
}

fn is_jsx_node(n: &Node) -> (r: bool)
    ensures
        r == is_jsx_v(n@),
{
    match n {
        Node::JsxElement(_) | Node::JsxSelfClosing(_) | Node::JsxFragment(_) => true,
        _ => false,
    }
}

/// Unwraps a single-paragraph child so `<del>*foo*</del>` renders as raw
/// HTML around inline content, and splices JSX-only paragraphs into the
/// parent.
pub fn unwrap_jsx_only_paragraphs(children: Vec<Node>) -> (r: Vec<Node>)
    ensures
        nvs(r@) == jsx_unwrapped(nvs(children@)),
{
    let ghost c = nvs(children@);
    if children.len() == 1 {
        if let Node::Paragraph(p) = &children[0] {
            assert(c[0] == nv(children@[0]));
            return crate::ast::clone_nodes(&p.children);
        }
        assert(c[0] == nv(children@[0]));
    }
    let ghost src = children@;
    let mut out: Vec<Node> = Vec::new();
    for child in it: children.into_iter()
        invariant
            it.seq() == src,
            c == nvs(src),
            nvs(out@) == unwrap_all(c.take(it.index() as int)),
    {
        let ghost k = it.index() as int;
        proof {
            assert(c[k] == nv(child));
            assert(c.take(k + 1).drop_last() =~= c.take(k));
        }
        let ghost before = out@;
        let mut spliced = false;
        if let Node::Paragraph(p) = &child {
            let ghost pk = nvs(p.children@);
            let mut only_jsx = true;
            let mut any_jsx = false;
            let mut i: usize = 0;
            while i < p.children.len()
                invariant
                    i <= p.children.len(),
                    pk == nvs(p.children@),
                    only_jsx == (forall|m: int| 0 <= m < i && !ws_node(#[trigger] pk[m]) ==> is_jsx_v(pk[m])),
                    any_jsx == (exists|m: int| 0 <= m < i && is_jsx_v(#[trigger] pk[m])),
                decreases p.children.len() - i,
            {
                assert(pk[i as int] == nv(p.children@[i as int]));
                let j = is_jsx_node(&p.children[i]);
                if !is_whitespace_text(&p.children[i]) && !j {
                    only_jsx = false;
                }
                if j {
                    any_jsx = true;
                }
                i += 1;
            }
            if only_jsx && any_jsx {
                let mut m: usize = 0;
                while m < p.children.len()
                    invariant
                        m <= p.children.len(),
                        pk == nvs(p.children@),
                        nvs(out@) == nvs(before) + jsx_of(pk.take(m as int)),
                    decreases p.children.len() - m,
                {
                    let ghost mid = out@;
                    proof {
                        assert(pk[m as int] == nv(p.children@[m as int]));
                        assert(pk.take(m + 1).drop_last() =~= pk.take(m as int));
                    }
                    if is_jsx_node(&p.children[m]) {
                        let cl = crate::ast::clone_node(&p.children[m]);
                        out.push(cl);
                        proof {
                            lemma_nvs_push(mid, cl);
                        }
                    }
                    m += 1;
                }
                assert(pk.take(p.children.len() as int) =~= pk);
                spliced = true;
            }
        }
        if !spliced {
            out.push(child);
            proof {
                lemma_nvs_push(before, child);
            }
        }
    }
    assert(c.take(src.len() as int) =~= c);
    out
}

} // verus!
