//! The document tree: block and inline nodes, JSX nodes, and source spans.

use vstd::prelude::*;
use crate::table::TableAlign;
use crate::text::{chars_of, push_all, string_of, trim, trim_vec};
use crate::slugger::{github_slug, github_slugify};

verus! {

/// A source location: file label, line, column and length.
#[derive(Debug, Clone, PartialEq)]
pub struct Span {
    pub file: String,
    pub line: usize,
    pub column: usize,
    pub length: usize,
}

/// A span that points nowhere.
pub fn default_span() -> (s: Span)
    ensures
        s.file@ == Seq::<char>::empty(),
        s.line == 0,
        s.column == 0,
        s.length == 0,
{
    Span { file: String::new(), line: 0, column: 0, length: 0 }
}

#[derive(Debug, Clone, PartialEq)]
pub enum JsxAttrValue {
    String(String),
    Expression(String),
    Boolean,
    /// `{...rest}` spread. Stored without the surrounding `{...}`;
    /// `JsxAttr.name` is empty for spreads.
    Spread(String),
}

#[derive(Debug, Clone, PartialEq)]
pub struct JsxAttr {
    pub name: String,
    pub value: JsxAttrValue,
    pub span: Span,
}

#[derive(Debug, PartialEq)]
pub enum Node {
    Document(Document),
    Frontmatter(Frontmatter),
    Import(Import),
    Export(Export),
    Heading(Heading),
    Paragraph(Paragraph),
    Text(Text),
    Bold(Inline),
    Italic(Inline),
    Strikethrough(Inline),
    InlineCode(InlineCode),
    CodeBlock(CodeBlock),
    Link(Link),
    Image(Image),
    HorizontalRule(HorizontalRule),
    Blockquote(Blockquote),
    List(List),
    ListItem(ListItem),
    TaskListItem(TaskListItem),
    Table(Table),
    TableRow(TableRow),
    TableCell(TableCell),
    JsxElement(JsxElement),
    JsxSelfClosing(JsxSelfClosing),
    JsxFragment(JsxFragment),
    JsxExpression(JsxExpression),
    HardBreak(BreakNode),
    SoftBreak(BreakNode),
    Html(Html),
    FootnoteRef(FootnoteRef),
    FootnoteDef(FootnoteDef),
}

#[derive(Debug, PartialEq)]
pub struct Document {
    pub children: Vec<Node>,
    pub span: Span,
}

#[derive(Debug, Clone, PartialEq)]
pub struct Frontmatter {
    pub raw: String,
    pub span: Span,
}

#[derive(Debug, Clone, PartialEq)]
pub struct Import {
    pub raw: String,
    pub span: Span,
}

#[derive(Debug, Clone, PartialEq)]
pub struct Export {
    pub raw: String,
    pub span: Span,
}

#[derive(Debug, PartialEq)]
pub struct Heading {
    pub level: u8,
    pub children: Vec<Node>,
    pub span: Span,
    /// Anchor id assigned by the document-wide heading-id pass. When
    /// `None`, `slug()` computes one from the heading text.
    pub id: Option<String>,
}

#[derive(Debug, PartialEq)]
pub struct Paragraph {
    pub children: Vec<Node>,
    pub span: Span,
}

#[derive(Debug, Clone, PartialEq)]
pub struct Text {
    pub value: String,
    pub span: Span,
}

#[derive(Debug, PartialEq)]
pub struct Inline {
    pub children: Vec<Node>,
    pub span: Span,
}

#[derive(Debug, Clone, PartialEq)]
pub struct InlineCode {
    pub value: String,
    pub span: Span,
}

#[derive(Debug, Clone, PartialEq)]
pub struct CodeBlock {
    pub lang: Option<String>,
    pub meta: Option<String>,
    pub value: String,
    pub span: Span,
}

#[derive(Debug, PartialEq)]
pub struct Link {
    pub href: String,
    pub title: Option<String>,
    pub children: Vec<Node>,
    pub span: Span,
}

#[derive(Debug, Clone, PartialEq)]
pub struct Image {
    pub src: String,
    pub alt: String,
    pub title: Option<String>,
    pub span: Span,
}

#[derive(Debug, Clone, PartialEq)]
pub struct HorizontalRule {
    pub span: Span,
}

#[derive(Debug, PartialEq)]
pub struct Blockquote {
    pub children: Vec<Node>,
    pub span: Span,
}

#[derive(Debug, PartialEq)]
pub struct List {
    pub ordered: bool,
    pub start: Option<u32>,
    /// Children are `ListItem` or `TaskListItem` nodes.
    pub children: Vec<Node>,
    pub span: Span,
}

#[derive(Debug, PartialEq)]
pub struct ListItem {
    pub children: Vec<Node>,
    pub span: Span,
}

#[derive(Debug, PartialEq)]
pub struct TaskListItem {
    pub checked: bool,
    pub children: Vec<Node>,
    pub span: Span,
}

#[derive(Debug, PartialEq)]
pub struct Table {
    pub align: Vec<TableAlign>,
    pub children: Vec<TableRow>,
    pub span: Span,
}

#[derive(Debug, PartialEq)]
pub struct TableRow {
    pub cells: Vec<TableCell>,
    pub span: Span,
}

#[derive(Debug, PartialEq)]
pub struct TableCell {
    pub children: Vec<Node>,
    pub span: Span,
}

#[derive(Debug, PartialEq)]
pub struct JsxElement {
    pub name: String,
    pub attrs: Vec<JsxAttr>,
    pub children: Vec<Node>,
    pub span: Span,
}

#[derive(Debug, Clone, PartialEq)]
pub struct JsxSelfClosing {
    pub name: String,
    pub attrs: Vec<JsxAttr>,
    pub span: Span,
}

#[derive(Debug, PartialEq)]
pub struct JsxFragment {
    pub children: Vec<Node>,
    pub span: Span,
}

#[derive(Debug, Clone, PartialEq)]
pub struct JsxExpression {
    pub value: String,
    pub span: Span,
}

#[derive(Debug, Clone, PartialEq)]
pub struct BreakNode {
    pub span: Span,
}

/// Raw HTML (CommonMark 4.6), kept verbatim.
#[derive(Debug, Clone, PartialEq)]
pub struct Html {
    pub value: String,
    pub span: Span,
}

/// GFM footnote reference (`[^id]`).
#[derive(Debug, Clone, PartialEq)]
pub struct FootnoteRef {
    pub id: String,
    pub span: Span,
}

/// GFM footnote definition (`[^id]: body`).
#[derive(Debug, PartialEq)]
pub struct FootnoteDef {
    pub id: String,
    pub children: Vec<Node>,
    pub span: Span,
}

/// The children a node holds (none for leaves, tables and table rows).
pub open spec fn children(n: Node) -> Seq<Node> {
    match n {
        Node::Document(x) => x.children@,
        Node::Heading(x) => x.children@,
        Node::Paragraph(x) => x.children@,
        Node::Bold(x) => x.children@,
        Node::Italic(x) => x.children@,
        Node::Strikethrough(x) => x.children@,
        Node::Link(x) => x.children@,
        Node::Blockquote(x) => x.children@,
        Node::List(x) => x.children@,
        Node::ListItem(x) => x.children@,
        Node::TaskListItem(x) => x.children@,
        Node::TableCell(x) => x.children@,
        Node::JsxElement(x) => x.children@,
        Node::JsxFragment(x) => x.children@,
        Node::FootnoteDef(x) => x.children@,
        _ => Seq::empty(),
    }
}

/// Whether the node kind has a child list.
pub open spec fn has_children(n: Node) -> bool {
    n is Document || n is Heading || n is Paragraph || n is Bold || n is Italic || n is Strikethrough
        || n is Link || n is Blockquote || n is List || n is ListItem || n is TaskListItem
        || n is TableCell || n is JsxElement || n is JsxFragment || n is FootnoteDef
}

/// `n` with its child list replaced by `c` (unchanged for kinds without
/// children).
pub open spec fn with_children(n: Node, c: Vec<Node>) -> Node {
    match n {
        Node::Document(x) => Node::Document(Document { children: c, ..x }),
        Node::Heading(x) => Node::Heading(Heading { children: c, ..x }),
        Node::Paragraph(x) => Node::Paragraph(Paragraph { children: c, ..x }),
        Node::Bold(x) => Node::Bold(Inline { children: c, ..x }),
        Node::Italic(x) => Node::Italic(Inline { children: c, ..x }),
        Node::Strikethrough(x) => Node::Strikethrough(Inline { children: c, ..x }),
        Node::Link(x) => Node::Link(Link { children: c, ..x }),
        Node::Blockquote(x) => Node::Blockquote(Blockquote { children: c, ..x }),
        Node::List(x) => Node::List(List { children: c, ..x }),
        Node::ListItem(x) => Node::ListItem(ListItem { children: c, ..x }),
        Node::TaskListItem(x) => Node::TaskListItem(TaskListItem { children: c, ..x }),
        Node::TableCell(x) => Node::TableCell(TableCell { children: c, ..x }),
        Node::JsxElement(x) => Node::JsxElement(JsxElement { children: c, ..x }),
        Node::JsxFragment(x) => Node::JsxFragment(JsxFragment { children: c, ..x }),
        Node::FootnoteDef(x) => Node::FootnoteDef(FootnoteDef { children: c, ..x }),
        _ => n,
    }
}

/// The child vector of a node that has one.
pub open spec fn child_vec(n: Node) -> Vec<Node>
    recommends
        has_children(n),
{
    match n {
        Node::Document(x) => x.children,
        Node::Heading(x) => x.children,
        Node::Paragraph(x) => x.children,
        Node::Bold(x) => x.children,
        Node::Italic(x) => x.children,
        Node::Strikethrough(x) => x.children,
        Node::Link(x) => x.children,
        Node::Blockquote(x) => x.children,
        Node::List(x) => x.children,
        Node::ListItem(x) => x.children,
        Node::TaskListItem(x) => x.children,
        Node::TableCell(x) => x.children,
        Node::JsxElement(x) => x.children,
        Node::JsxFragment(x) => x.children,
        Node::FootnoteDef(x) => x.children,
        _ => arbitrary(),
    }
}

impl Node {
    pub fn children_of_mut(node: &mut Node) -> (r: Option<&mut Vec<Node>>)
        ensures
            r is Some <==> has_children(*old(node)),
            match r {
                Some(v) => *v == child_vec(*old(node)) && *final(node) == with_children(
                    *old(node),
                    *final(v),
                ),
                None => *final(node) == *old(node),
            },
    {
        match node {
            Node::Document(n) => Some(&mut n.children),
            Node::Heading(n) => Some(&mut n.children),
            Node::Paragraph(n) => Some(&mut n.children),
            Node::Bold(n) => Some(&mut n.children),
            Node::Italic(n) => Some(&mut n.children),
            Node::Strikethrough(n) => Some(&mut n.children),
            Node::Link(n) => Some(&mut n.children),
            Node::Blockquote(n) => Some(&mut n.children),
            Node::List(n) => Some(&mut n.children),
            Node::ListItem(n) => Some(&mut n.children),
            Node::TaskListItem(n) => Some(&mut n.children),
            Node::TableCell(n) => Some(&mut n.children),
            Node::JsxElement(n) => Some(&mut n.children),
            Node::JsxFragment(n) => Some(&mut n.children),
            Node::FootnoteDef(n) => Some(&mut n.children),
            _ => None,
        }
    }

    pub fn children_of(node: &Node) -> (r: &[Node])
        ensures
            r@ == children(*node),
    {
        match node {
            Node::Document(n) => n.children.as_slice(),
            Node::Heading(n) => n.children.as_slice(),
            Node::Paragraph(n) => n.children.as_slice(),
            Node::Bold(n) => n.children.as_slice(),
            Node::Italic(n) => n.children.as_slice(),
            Node::Strikethrough(n) => n.children.as_slice(),
            Node::Link(n) => n.children.as_slice(),
            Node::Blockquote(n) => n.children.as_slice(),
            Node::List(n) => n.children.as_slice(),
            Node::ListItem(n) => n.children.as_slice(),
            Node::TaskListItem(n) => n.children.as_slice(),
            Node::TableCell(n) => n.children.as_slice(),
            Node::JsxElement(n) => n.children.as_slice(),
            Node::JsxFragment(n) => n.children.as_slice(),
            Node::FootnoteDef(n) => n.children.as_slice(),
            _ => &[],
        }
    }
}


// ---------------------------------------------------------------------
// Heading text and anchors
// ---------------------------------------------------------------------

/// Plain text of inline nodes as headings flatten it: text and code
/// values, the (trimmed) text of emphasis and link children; JSX and
/// images contribute nothing. The whole result is trimmed.
pub open spec fn heading_text(ns: Seq<Node>) -> Seq<char>
    decreases ns, 2nat,
{
    trim(heading_concat(ns))
}

pub open spec fn heading_concat(ns: Seq<Node>) -> Seq<char>
    decreases ns, 1nat,
{
    if ns.len() == 0 {
        Seq::empty()
    } else {
        heading_concat(ns.drop_last()) + heading_piece(ns.last())
    }
}

pub open spec fn heading_piece(n: Node) -> Seq<char>
    decreases n, 0nat,
{
    match n {
        Node::Text(t) => t.value@,
        Node::Bold(i) => heading_text(i.children@),
        Node::Italic(i) => heading_text(i.children@),
        Node::Strikethrough(i) => heading_text(i.children@),
        Node::Link(l) => heading_text(l.children@),
        Node::InlineCode(c) => c.value@,
        _ => Seq::empty(),
    }
}

/// Heading text characters (trimmed) of `nodes`.
fn heading_chars(nodes: &[Node]) -> (r: Vec<char>)
    ensures
        r@ == heading_text(nodes@),
    decreases nodes@, 2nat,
{
    let mut out: Vec<char> = Vec::new();
    let mut i: usize = 0;
    while i < nodes.len()
        invariant
            i <= nodes@.len(),
            out@ == heading_concat(nodes@.take(i as int)),
        decreases nodes@.len() - i,
    {
        let n = &nodes[i];
        let ghost before = out@;
        proof {
            assert(nodes@.take(i + 1).drop_last() =~= nodes@.take(i as int));
            assert(nodes@.take(i + 1).last() == *n);
            assert(heading_concat(nodes@.take(i + 1)) == heading_concat(nodes@.take(i as int))
                + heading_piece(*n));
        }
        match n {
            Node::Text(t) => {
                let v = chars_of(t.value.as_str());
                push_all(&mut out, &v);
            },
            Node::Bold(x) | Node::Italic(x) | Node::Strikethrough(x) => {
                let v = heading_chars(x.children.as_slice());
                push_all(&mut out, &v);
            },
            Node::Link(l) => {
                let v = heading_chars(l.children.as_slice());
                push_all(&mut out, &v);
            },
            Node::InlineCode(c) => {
                let v = chars_of(c.value.as_str());
                push_all(&mut out, &v);
            },
            _ => {},
        }
        assert(out@ == before + heading_piece(*n));
        i += 1;
    }
    assert(nodes@.take(nodes@.len() as int) =~= nodes@);
    trim_vec(&out)
}

impl Heading {
    /// Flatten inline nodes to bare text. Recurses through emphasis and
    /// link wrappers; skips JSX and images.
    pub fn plain_text(nodes: &[Node]) -> (r: String)
        ensures
            r@ == heading_text(nodes@),
    {
        let v = heading_chars(nodes);
        string_of(&v)
    }

    /// URL-anchor slug. Prefers the pre-computed `id` (only the
    /// document-wide pass can dedupe duplicates); else computes it from the
    /// heading text.
    pub fn slug(&self) -> (r: String)
        ensures
            r@ == match self.id {
                Some(id) => id@,
                None => github_slug(heading_text(self.children@)),
            },
    {
        match &self.id {
            Some(id) => id.clone(),
            None => {
                let text = Self::plain_text(self.children.as_slice());
                github_slugify(text.as_str())
            },
        }
    }
}


// ---------------------------------------------------------------------
// The tree as a mathematical value
// ---------------------------------------------------------------------

/// A node with every child list as a sequence and every string as its
/// characters: what tree transformations are specified over.
pub enum NodeV {
    Document(Seq<NodeV>, Span),
    Frontmatter(Seq<char>, Span),
    Import(Seq<char>, Span),
    Export(Seq<char>, Span),
    Heading(u8, Seq<NodeV>, Span, Option<Seq<char>>),
    Paragraph(Seq<NodeV>, Span),
    Text(Seq<char>, Span),
    Bold(Seq<NodeV>, Span),
    Italic(Seq<NodeV>, Span),
    Strikethrough(Seq<NodeV>, Span),
    InlineCode(Seq<char>, Span),
    CodeBlock(Option<Seq<char>>, Option<Seq<char>>, Seq<char>, Span),
    Link(Seq<char>, Option<Seq<char>>, Seq<NodeV>, Span),
    Image(Seq<char>, Seq<char>, Option<Seq<char>>, Span),
    HorizontalRule(Span),
    Blockquote(Seq<NodeV>, Span),
    List(bool, Option<u32>, Seq<NodeV>, Span),
    ListItem(Seq<NodeV>, Span),
    TaskListItem(bool, Seq<NodeV>, Span),
    Table(Seq<TableAlign>, Seq<RowV>, Span),
    TableRow(RowV),
    TableCell(CellV),
    JsxElement(Seq<char>, Seq<JsxAttr>, Seq<NodeV>, Span),
    JsxSelfClosing(Seq<char>, Seq<JsxAttr>, Span),
    JsxFragment(Seq<NodeV>, Span),
    JsxExpression(Seq<char>, Span),
    HardBreak(Span),
    SoftBreak(Span),
    Html(Seq<char>, Span),
    FootnoteRef(Seq<char>, Span),
    FootnoteDef(Seq<char>, Seq<NodeV>, Span),
}

pub struct RowV {
    pub cells: Seq<CellV>,
    pub span: Span,
}

pub struct CellV {
    pub children: Seq<NodeV>,
    pub span: Span,
}

pub open spec fn opt_chars(o: Option<String>) -> Option<Seq<char>> {
    match o {
        Some(s) => Some(s@),
        None => None,
    }
}

pub open spec fn nv(n: Node) -> NodeV
    decreases n, 0nat,
{
    match n {
        Node::Document(x) => NodeV::Document(nvs(x.children@), x.span),
        Node::Frontmatter(x) => NodeV::Frontmatter(x.raw@, x.span),
        Node::Import(x) => NodeV::Import(x.raw@, x.span),
        Node::Export(x) => NodeV::Export(x.raw@, x.span),
        Node::Heading(x) => NodeV::Heading(x.level, nvs(x.children@), x.span, opt_chars(x.id)),
        Node::Paragraph(x) => NodeV::Paragraph(nvs(x.children@), x.span),
        Node::Text(x) => NodeV::Text(x.value@, x.span),
        Node::Bold(x) => NodeV::Bold(nvs(x.children@), x.span),
        Node::Italic(x) => NodeV::Italic(nvs(x.children@), x.span),
        Node::Strikethrough(x) => NodeV::Strikethrough(nvs(x.children@), x.span),
        Node::InlineCode(x) => NodeV::InlineCode(x.value@, x.span),
        Node::CodeBlock(x) => NodeV::CodeBlock(opt_chars(x.lang), opt_chars(x.meta), x.value@, x.span),
        Node::Link(x) => NodeV::Link(x.href@, opt_chars(x.title), nvs(x.children@), x.span),
        Node::Image(x) => NodeV::Image(x.src@, x.alt@, opt_chars(x.title), x.span),
        Node::HorizontalRule(x) => NodeV::HorizontalRule(x.span),
        Node::Blockquote(x) => NodeV::Blockquote(nvs(x.children@), x.span),
        Node::List(x) => NodeV::List(x.ordered, x.start, nvs(x.children@), x.span),
        Node::ListItem(x) => NodeV::ListItem(nvs(x.children@), x.span),
        Node::TaskListItem(x) => NodeV::TaskListItem(x.checked, nvs(x.children@), x.span),
        Node::Table(x) => NodeV::Table(x.align@, rowsv(x.children@), x.span),
        Node::TableRow(x) => NodeV::TableRow(rowv(x)),
        Node::TableCell(x) => NodeV::TableCell(cellv(x)),
        Node::JsxElement(x) => NodeV::JsxElement(x.name@, x.attrs@, nvs(x.children@), x.span),
        Node::JsxSelfClosing(x) => NodeV::JsxSelfClosing(x.name@, x.attrs@, x.span),
        Node::JsxFragment(x) => NodeV::JsxFragment(nvs(x.children@), x.span),
        Node::JsxExpression(x) => NodeV::JsxExpression(x.value@, x.span),
        Node::HardBreak(x) => NodeV::HardBreak(x.span),
        Node::SoftBreak(x) => NodeV::SoftBreak(x.span),
        Node::Html(x) => NodeV::Html(x.value@, x.span),
        Node::FootnoteRef(x) => NodeV::FootnoteRef(x.id@, x.span),
        Node::FootnoteDef(x) => NodeV::FootnoteDef(x.id@, nvs(x.children@), x.span),
    }
}

pub open spec fn nvs(s: Seq<Node>) -> Seq<NodeV>
    decreases s, 1nat,
{
    if s.len() == 0 {
        Seq::empty()
    } else {
        nvs(s.drop_last()).push(nv(s.last()))
    }
}

pub open spec fn rowv(r: TableRow) -> RowV
    decreases r, 0nat,
{
    RowV { cells: cellsv(r.cells@), span: r.span }
}

pub open spec fn rowsv(s: Seq<TableRow>) -> Seq<RowV>
    decreases s, 1nat,
{
    if s.len() == 0 {
        Seq::empty()
    } else {
        rowsv(s.drop_last()).push(rowv(s.last()))
    }
}

pub open spec fn cellv(c: TableCell) -> CellV
    decreases c, 0nat,
{
    CellV { children: nvs(c.children@), span: c.span }
}

pub open spec fn cellsv(s: Seq<TableCell>) -> Seq<CellV>
    decreases s, 1nat,
{
    if s.len() == 0 {
        Seq::empty()
    } else {
        cellsv(s.drop_last()).push(cellv(s.last()))
    }
}

impl View for Node {
    type V = NodeV;

    open spec fn view(&self) -> NodeV {
        nv(*self)
    }
}

/// `nvs` works element by element.
pub proof fn lemma_nvs(s: Seq<Node>)
    ensures
        nvs(s).len() == s.len(),
        forall|i: int| 0 <= i < s.len() ==> #[trigger] nvs(s)[i] == nv(s[i]),
    decreases s.len(),
{
    if s.len() > 0 {
        lemma_nvs(s.drop_last());
        assert forall|i: int| 0 <= i < s.len() implies #[trigger] nvs(s)[i] == nv(s[i]) by {
            if i < s.len() - 1 {
                assert(s.drop_last()[i] == s[i]);
            }
        }
    }
}

pub broadcast proof fn lemma_nvs_len(s: Seq<Node>)
    ensures
        #[trigger] nvs(s).len() == s.len(),
{
    lemma_nvs(s);
}

pub broadcast proof fn lemma_nvs_index(s: Seq<Node>, i: int)
    requires
        0 <= i < s.len(),
    ensures
        #[trigger] nvs(s)[i] == nv(s[i]),
{
    lemma_nvs(s);
}

/// Two sequences whose nodes have the same views have the same view.
pub proof fn lemma_nvs_ext(a: Seq<Node>, b: Seq<Node>)
    requires
        a.len() == b.len(),
        forall|i: int| 0 <= i < a.len() ==> nv(#[trigger] a[i]) == nv(b[i]),
    ensures
        nvs(a) == nvs(b),
{
    lemma_nvs(a);
    lemma_nvs(b);
    assert(nvs(a) =~= nvs(b));
}

/// The view of a concatenation is the concatenation of the views.
pub proof fn lemma_nvs_add(a: Seq<Node>, b: Seq<Node>)
    ensures
        nvs(a + b) == nvs(a) + nvs(b),
{
    lemma_nvs(a);
    lemma_nvs(b);
    lemma_nvs(a + b);
    assert(nvs(a + b) =~= nvs(a) + nvs(b));
}


// ---------------------------------------------------------------------
// Deep copies
// ---------------------------------------------------------------------

pub fn clone_opt_string(o: &Option<String>) -> (r: Option<String>)
    ensures
        r == *o,
{
    match o {
        Some(s) => Some(s.clone()),
        None => None,
    }
}

pub fn clone_span(s: &Span) -> (r: Span)
    ensures
        r == *s,
{
    Span { file: s.file.clone(), line: s.line, column: s.column, length: s.length }
}

pub fn clone_attr(a: &JsxAttr) -> (r: JsxAttr)
    ensures
        r == *a,
{
    let value = match &a.value {
        JsxAttrValue::String(s) => JsxAttrValue::String(s.clone()),
        JsxAttrValue::Expression(s) => JsxAttrValue::Expression(s.clone()),
        JsxAttrValue::Boolean => JsxAttrValue::Boolean,
        JsxAttrValue::Spread(s) => JsxAttrValue::Spread(s.clone()),
    };
    JsxAttr { name: a.name.clone(), value, span: clone_span(&a.span) }
}

pub fn clone_attrs(v: &Vec<JsxAttr>) -> (r: Vec<JsxAttr>)
    ensures
        r@ == v@,
{
    let mut r: Vec<JsxAttr> = Vec::new();
    let mut i: usize = 0;
    while i < v.len()
        invariant
            i <= v.len(),
            r@ == v@.take(i as int),
        decreases v.len() - i,
    {
        r.push(clone_attr(&v[i]));
        i += 1;
        assert(r@ =~= v@.take(i as int));
    }
    assert(v@.take(v.len() as int) =~= v@);
    r
}

pub fn clone_aligns(v: &Vec<TableAlign>) -> (r: Vec<TableAlign>)
    ensures
        r@ == v@,
{
    let mut r: Vec<TableAlign> = Vec::new();
    let mut i: usize = 0;
    while i < v.len()
        invariant
            i <= v.len(),
            r@ == v@.take(i as int),
        decreases v.len() - i,
    {
        r.push(v[i]);
        i += 1;
        assert(r@ =~= v@.take(i as int));
    }
    assert(v@.take(v.len() as int) =~= v@);
    r
}

/// A deep copy of a node.
pub fn clone_node(n: &Node) -> (r: Node)
    ensures
        r@ == n@,
    decreases n, 0nat,
{
    match n {
        Node::Document(x) => Node::Document(
            Document { children: clone_nodes(&x.children), span: clone_span(&x.span) },
        ),
        Node::Frontmatter(x) => Node::Frontmatter(
            Frontmatter { raw: x.raw.clone(), span: clone_span(&x.span) },
        ),
        Node::Import(x) => Node::Import(Import { raw: x.raw.clone(), span: clone_span(&x.span) }),
        Node::Export(x) => Node::Export(Export { raw: x.raw.clone(), span: clone_span(&x.span) }),
        Node::Heading(x) => Node::Heading(
            Heading {
                level: x.level,
                children: clone_nodes(&x.children),
                span: clone_span(&x.span),
                id: clone_opt_string(&x.id),
            },
        ),
        Node::Paragraph(x) => Node::Paragraph(
            Paragraph { children: clone_nodes(&x.children), span: clone_span(&x.span) },
        ),
        Node::Text(x) => Node::Text(Text { value: x.value.clone(), span: clone_span(&x.span) }),
        Node::Bold(x) => Node::Bold(
            Inline { children: clone_nodes(&x.children), span: clone_span(&x.span) },
        ),
        Node::Italic(x) => Node::Italic(
            Inline { children: clone_nodes(&x.children), span: clone_span(&x.span) },
        ),
        Node::Strikethrough(x) => Node::Strikethrough(
            Inline { children: clone_nodes(&x.children), span: clone_span(&x.span) },
        ),
        Node::InlineCode(x) => Node::InlineCode(
            InlineCode { value: x.value.clone(), span: clone_span(&x.span) },
        ),
        Node::CodeBlock(x) => Node::CodeBlock(
            CodeBlock {
                lang: clone_opt_string(&x.lang),
                meta: clone_opt_string(&x.meta),
                value: x.value.clone(),
                span: clone_span(&x.span),
            },
        ),
        Node::Link(x) => Node::Link(
            Link {
                href: x.href.clone(),
                title: clone_opt_string(&x.title),
                children: clone_nodes(&x.children),
                span: clone_span(&x.span),
            },
        ),
        Node::Image(x) => Node::Image(
            Image {
                src: x.src.clone(),
                alt: x.alt.clone(),
                title: clone_opt_string(&x.title),
                span: clone_span(&x.span),
            },
        ),
        Node::HorizontalRule(x) => Node::HorizontalRule(HorizontalRule { span: clone_span(&x.span) }),
        Node::Blockquote(x) => Node::Blockquote(
            Blockquote { children: clone_nodes(&x.children), span: clone_span(&x.span) },
        ),
        Node::List(x) => Node::List(
            List {
                ordered: x.ordered,
                start: x.start,
                children: clone_nodes(&x.children),
                span: clone_span(&x.span),
            },
        ),
        Node::ListItem(x) => Node::ListItem(
            ListItem { children: clone_nodes(&x.children), span: clone_span(&x.span) },
        ),
        Node::TaskListItem(x) => Node::TaskListItem(
            TaskListItem {
                checked: x.checked,
                children: clone_nodes(&x.children),
                span: clone_span(&x.span),
            },
        ),
        Node::Table(x) => Node::Table(
            Table {
                align: clone_aligns(&x.align),
                children: clone_rows(&x.children),
                span: clone_span(&x.span),
            },
        ),
        Node::TableRow(x) => Node::TableRow(clone_row(x)),
        Node::TableCell(x) => Node::TableCell(clone_cell(x)),
        Node::JsxElement(x) => Node::JsxElement(
            JsxElement {
                name: x.name.clone(),
                attrs: clone_attrs(&x.attrs),
                children: clone_nodes(&x.children),
                span: clone_span(&x.span),
            },
        ),
        Node::JsxSelfClosing(x) => Node::JsxSelfClosing(
            JsxSelfClosing {
                name: x.name.clone(),
                attrs: clone_attrs(&x.attrs),
                span: clone_span(&x.span),
            },
        ),
        Node::JsxFragment(x) => Node::JsxFragment(
            JsxFragment { children: clone_nodes(&x.children), span: clone_span(&x.span) },
        ),
        Node::JsxExpression(x) => Node::JsxExpression(
            JsxExpression { value: x.value.clone(), span: clone_span(&x.span) },
        ),
        Node::HardBreak(x) => Node::HardBreak(BreakNode { span: clone_span(&x.span) }),
        Node::SoftBreak(x) => Node::SoftBreak(BreakNode { span: clone_span(&x.span) }),
        Node::Html(x) => Node::Html(Html { value: x.value.clone(), span: clone_span(&x.span) }),
        Node::FootnoteRef(x) => Node::FootnoteRef(
            FootnoteRef { id: x.id.clone(), span: clone_span(&x.span) },
        ),
        Node::FootnoteDef(x) => Node::FootnoteDef(
            FootnoteDef {
                id: x.id.clone(),
                children: clone_nodes(&x.children),
                span: clone_span(&x.span),
            },
        ),
    }
}

/// A deep copy of a node list.
pub fn clone_nodes(v: &Vec<Node>) -> (r: Vec<Node>)
    ensures
        nvs(r@) == nvs(v@),
    decreases v, 1nat,
{
    let mut r: Vec<Node> = Vec::new();
    let mut i: usize = 0;
    while i < v.len()
        invariant
            i <= v.len(),
            r@.len() == i,
            forall|j: int| 0 <= j < i ==> nv(#[trigger] r@[j]) == nv(v@[j]),
        decreases v.len() - i,
    {
        r.push(clone_node(&v[i]));
        i += 1;
    }
    proof {
        lemma_nvs_ext(r@, v@);
    }
    r
}

fn clone_cell(c: &TableCell) -> (r: TableCell)
    ensures
        cellv(r) == cellv(*c),
    decreases c, 0nat,
{
    TableCell { children: clone_nodes(&c.children), span: clone_span(&c.span) }
}

fn clone_cells(v: &Vec<TableCell>) -> (r: Vec<TableCell>)
    ensures
        cellsv(r@) == cellsv(v@),
    decreases v, 1nat,
{
    let mut r: Vec<TableCell> = Vec::new();
    let mut i: usize = 0;
    while i < v.len()
        invariant
            i <= v.len(),
            cellsv(r@) == cellsv(v@.take(i as int)),
        decreases v.len() - i,
    {
        let c = clone_cell(&v[i]);
        let ghost before = r@;
        r.push(c);
        proof {
            assert(r@.drop_last() =~= before);
            assert(v@.take(i + 1).drop_last() =~= v@.take(i as int));
        }
        i += 1;
    }
    assert(v@.take(v.len() as int) =~= v@);
    r
}

fn clone_row(w: &TableRow) -> (r: TableRow)
    ensures
        rowv(r) == rowv(*w),
    decreases w, 0nat,
{
    TableRow { cells: clone_cells(&w.cells), span: clone_span(&w.span) }
}

fn clone_rows(v: &Vec<TableRow>) -> (r: Vec<TableRow>)
    ensures
        rowsv(r@) == rowsv(v@),
    decreases v, 1nat,
{
    let mut r: Vec<TableRow> = Vec::new();
    let mut i: usize = 0;
    while i < v.len()
        invariant
            i <= v.len(),
            rowsv(r@) == rowsv(v@.take(i as int)),
        decreases v.len() - i,
    {
        let c = clone_row(&v[i]);
        let ghost before = r@;
        r.push(c);
        proof {
            assert(r@.drop_last() =~= before);
            assert(v@.take(i + 1).drop_last() =~= v@.take(i as int));
        }
        i += 1;
    }
    assert(v@.take(v.len() as int) =~= v@);
    r
}

} // verus!
