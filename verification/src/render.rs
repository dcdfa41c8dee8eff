//! The indented tree view of a document: one line per node with a stable
//! summary, drawn with `|- ` / `` `- `` connectors.

use vstd::prelude::*;
use vstd::string::StringSliceAdditionalSpecFns;
use vstd::utf8::encode_utf8;
use crate::ast::{heading_text, Document, Heading, JsxAttr, Node, TableCell, TableRow};
use crate::display::{attr_value_text, fmt_attr_value, trunc, truncated};
use crate::slugger::github_slug;
use crate::table::TableAlign;
use crate::text::{chars_of, decimal, decimal_of, push_all, string_of};

verus! {

/// What `{:?}` writes for a string: the text in double quotes, with
/// escapes.
pub uninterp spec fn debug_quoted(s: Seq<char>) -> Seq<char>;

/// `format!("{:?}", s)`: the result is `debug_quoted(s)`.
#[verifier::external_body]
fn debug_str(s: &str) -> (r: String)
    ensures
        r@ == debug_quoted(s@),
{
    format!("{:?}", s)
}

/// `{:?}` of an optional string.
pub open spec fn debug_opt(o: Option<String>) -> Seq<char> {
    match o {
        None => "None"@,
        Some(s) => "Some("@ + debug_quoted(s@) + ")"@,
    }
}

/// `{:?}` of an optional number.
pub open spec fn debug_opt_u32(o: Option<u32>) -> Seq<char> {
    match o {
        None => "None"@,
        Some(n) => "Some("@ + decimal(n as nat) + ")"@,
    }
}

pub open spec fn bool_text(b: bool) -> Seq<char> {
    if b {
        "true"@
    } else {
        "false"@
    }
}

pub open spec fn align_text(a: TableAlign) -> Seq<char> {
    match a {
        TableAlign::Unset => "None"@,
        TableAlign::Left => "Left"@,
        TableAlign::Right => "Right"@,
        TableAlign::Center => "Center"@,
    }
}

/// Alignments from `i` on, separated by `, `.
pub open spec fn aligns_text(a: Seq<TableAlign>, i: int) -> Seq<char>
    decreases a.len() - i,
{
    if i >= a.len() || i < 0 {
        Seq::empty()
    } else if i + 1 == a.len() {
        align_text(a[i])
    } else {
        align_text(a[i]) + ", "@ + aligns_text(a, i + 1)
    }
}

/// Attributes from `i` on as `name=value`, separated by spaces.
pub open spec fn attrs_text(a: Seq<JsxAttr>, i: int) -> Seq<char>
    decreases a.len() - i,
{
    if i >= a.len() || i < 0 {
        Seq::empty()
    } else if i + 1 == a.len() {
        a[i].name@ + "="@ + attr_value_text(a[i].value)
    } else {
        a[i].name@ + "="@ + attr_value_text(a[i].value) + " "@ + attrs_text(a, i + 1)
    }
}

/// `<name attrs` with a space before the attributes when there are any.
pub open spec fn tag_text(name: Seq<char>, attrs: Seq<JsxAttr>) -> Seq<char> {
    if attrs.len() == 0 {
        name
    } else {
        name + " "@ + attrs_text(attrs, 0)
    }
}

/// A heading's anchor: its id, else the slug of its text.
pub open spec fn heading_slug(h: Heading) -> Seq<char> {
    match h.id {
        Some(id) => id@,
        None => github_slug(heading_text(h.children@)),
    }
}

/// The one-line summary of a node.
pub open spec fn node_label(n: Node) -> Seq<char> {
    match n {
        Node::Document(_) => "Document"@,
        Node::Frontmatter(x) => "Frontmatter  raw="@ + debug_quoted(truncated(x.raw@, 80)),
        Node::Import(x) => "Import       raw="@ + debug_quoted(truncated(x.raw@, 80)),
        Node::Export(x) => "Export       raw="@ + debug_quoted(truncated(x.raw@, 80)),
        Node::Heading(x) => "Heading      level="@ + decimal(x.level as nat) + " slug=\""@
            + heading_slug(x) + "\""@,
        Node::Paragraph(_) => "Paragraph"@,
        Node::Text(x) => "Text         "@ + debug_quoted(truncated(x.value@, 80)),
        Node::Bold(_) => "Bold"@,
        Node::Italic(_) => "Italic"@,
        Node::Strikethrough(_) => "Strikethrough"@,
        Node::InlineCode(x) => "InlineCode   "@ + debug_quoted(truncated(x.value@, 80)),
        Node::CodeBlock(x) => "CodeBlock    lang="@ + debug_opt(x.lang) + " meta="@ + debug_opt(x.meta)
            + " bytes="@ + decimal((encode_utf8(x.value@).len() as usize) as nat),
        Node::Link(x) => "Link         href=\""@ + x.href@ + "\" title="@ + debug_opt(x.title),
        Node::Image(x) => "Image        src=\""@ + x.src@ + "\" alt="@ + debug_quoted(x.alt@) + " title="@
            + debug_opt(x.title),
        Node::HorizontalRule(_) => "HorizontalRule"@,
        Node::Blockquote(_) => "Blockquote"@,
        Node::List(x) => "List         ordered="@ + bool_text(x.ordered) + " start="@ + debug_opt_u32(x.start),
        Node::ListItem(_) => "ListItem"@,
        Node::TaskListItem(x) => "TaskListItem checked="@ + bool_text(x.checked),
        Node::Table(x) => "Table        align=["@ + aligns_text(x.align@, 0) + "]"@,
        Node::TableRow(_) => "(table piece)"@,
        Node::TableCell(_) => "(table piece)"@,
        Node::JsxElement(x) => "JsxElement   <"@ + tag_text(x.name@, x.attrs@) + ">"@,
        Node::JsxSelfClosing(x) => "JsxSelfClose <"@ + tag_text(x.name@, x.attrs@) + " />"@,
        Node::JsxFragment(_) => "JsxFragment  <>"@,
        Node::JsxExpression(x) => "JsxExpr      "@ + debug_quoted(truncated(x.value@, 80)),
        Node::HardBreak(_) => "HardBreak"@,
        Node::SoftBreak(_) => "SoftBreak"@,
        Node::Html(x) => "Html         "@ + debug_quoted(truncated(x.value@, 80)),
        Node::FootnoteRef(x) => "FootnoteRef  id="@ + debug_quoted(x.id@),
        Node::FootnoteDef(x) => "FootnoteDef  id="@ + debug_quoted(x.id@),
    }
}

pub open spec fn connector(last: bool) -> Seq<char> {
    if last {
        "`- "@
    } else {
        "|- "@
    }
}

pub open spec fn indent(last: bool) -> Seq<char> {
    if last {
        "   "@
    } else {
        "|  "@
    }
}

/// The text values among a cell's children, concatenated.
pub open spec fn cell_text(c: Seq<Node>) -> Seq<char>
    decreases c.len(),
{
    if c.len() == 0 {
        Seq::empty()
    } else {
        cell_text(c.drop_last()) + match c.last() {
            Node::Text(t) => t.value@,
            _ => Seq::empty(),
        }
    }
}

/// Cells from `i` on, each on its own line.
pub open spec fn cells_lines(cells: Seq<TableCell>, p: Seq<char>, i: int) -> Seq<char>
    decreases cells.len() - i,
{
    if i >= cells.len() || i < 0 {
        Seq::empty()
    } else {
        p + connector(i + 1 == cells.len()) + "TableCell["@ + decimal(i as nat) + "] "@ + debug_quoted(
            truncated(cell_text(cells[i].children@), 60),
        ) + "\n"@ + cells_lines(cells, p, i + 1)
    }
}

/// Rows from `i` on, each followed by its cells.
pub open spec fn rows_lines(rows: Seq<TableRow>, p: Seq<char>, i: int) -> Seq<char>
    decreases rows.len() - i,
{
    if i >= rows.len() || i < 0 {
        Seq::empty()
    } else {
        let last = i + 1 == rows.len();
        p + connector(last) + "TableRow["@ + decimal(i as nat) + "]\n"@ + cells_lines(
            rows[i].cells@,
            p + indent(last),
            0,
        ) + rows_lines(rows, p, i + 1)
    }
}

/// The lines of a node drawn under `prefix`, and of everything below it.
pub open spec fn node_lines(n: Node, prefix: Seq<char>, last: bool) -> Seq<char>
    decreases n, 1nat, 0int,
{
    prefix + connector(last) + node_label(n) + "\n"@ + below_lines(n, prefix + indent(last))
}

/// What is drawn below a node, under prefix `p`: the children of
/// containers; a table draws its rows, and other nodes nothing.
pub open spec fn below_lines(n: Node, p: Seq<char>) -> Seq<char>
    decreases n, 0nat, 0int,
{
    match n {
        Node::Document(x) => list_lines(x.children@, p, 0),
        Node::Heading(x) => list_lines(x.children@, p, 0),
        Node::Paragraph(x) => list_lines(x.children@, p, 0),
        Node::Bold(x) => list_lines(x.children@, p, 0),
        Node::Italic(x) => list_lines(x.children@, p, 0),
        Node::Strikethrough(x) => list_lines(x.children@, p, 0),
        Node::Link(x) => list_lines(x.children@, p, 0),
        Node::Blockquote(x) => list_lines(x.children@, p, 0),
        Node::List(x) => list_lines(x.children@, p, 0),
        Node::ListItem(x) => list_lines(x.children@, p, 0),
        Node::TaskListItem(x) => list_lines(x.children@, p, 0),
        Node::JsxElement(x) => list_lines(x.children@, p, 0),
        Node::JsxFragment(x) => list_lines(x.children@, p, 0),
        Node::FootnoteDef(x) => list_lines(x.children@, p, 0),
        Node::Table(x) => rows_lines(x.children@, p, 0),
        _ => Seq::empty(),
    }
}

/// The nodes of `s` from `i` on, the final one drawn as last.
pub open spec fn list_lines(s: Seq<Node>, prefix: Seq<char>, i: int) -> Seq<char>
    decreases s, 2nat, s.len() - i,
{
    if i >= s.len() || i < 0 {
        Seq::empty()
    } else {
        node_lines(s[i], prefix, i + 1 == s.len()) + list_lines(s, prefix, i + 1)
    }
}

/// The tree view of a document.
pub open spec fn doc_lines(d: Document) -> Seq<char> {
    "Document\n"@ + list_lines(d.children@, Seq::empty(), 0)
}

fn push_text(out: &mut Vec<char>, s: &str)
    ensures
        final(out)@ == old(out)@ + s@,
{
    let v = chars_of(s);
    push_all(out, &v);
}

fn push_debug(out: &mut Vec<char>, s: &str)
    ensures
        final(out)@ == old(out)@ + debug_quoted(s@),
{
    let d = debug_str(s);
    push_text(out, d.as_str());
}

fn push_debug_opt(out: &mut Vec<char>, o: &Option<String>)
    ensures
        final(out)@ == old(out)@ + debug_opt(*o),
{
    match o {
        None => push_text(out, "None"),
        Some(s) => {
            push_text(out, "Some(");
            push_debug(out, s.as_str());
            push_text(out, ")");
        },
    }
}

fn push_decimal(out: &mut Vec<char>, n: u64)
    ensures
        final(out)@ == old(out)@ + decimal(n as nat),
{
    let d = decimal_of(n);
    push_all(out, &d);
}

fn push_bool(out: &mut Vec<char>, b: bool)
    ensures
        final(out)@ == old(out)@ + bool_text(b),
{
    if b {
        push_text(out, "true");
    } else {
        push_text(out, "false");
    }
}

fn push_aligns(out: &mut Vec<char>, a: &Vec<TableAlign>)
    ensures
        final(out)@ == old(out)@ + aligns_text(a@, 0),
{
    let mut i: usize = 0;
    while i < a.len()
        invariant
            i <= a.len(),
            out@ + aligns_text(a@, i as int) == old(out)@ + aligns_text(a@, 0),
        decreases a.len() - i,
    {
        let ghost before = out@;
        match a[i] {
            TableAlign::Unset => push_text(out, "None"),
            TableAlign::Left => push_text(out, "Left"),
            TableAlign::Right => push_text(out, "Right"),
            TableAlign::Center => push_text(out, "Center"),
        }
        if i + 1 < a.len() {
            push_text(out, ", ");
        }
        proof {
            assert(out@ + aligns_text(a@, i + 1) =~= before + aligns_text(a@, i as int));
        }
        i += 1;
    }
    assert(out@ + aligns_text(a@, i as int) =~= out@);
}

fn push_tag(out: &mut Vec<char>, name: &String, attrs: &Vec<JsxAttr>)
    ensures
        final(out)@ == old(out)@ + tag_text(name@, attrs@),
{
    push_text(out, name.as_str());
    if attrs.len() == 0 {
        return;
    }
    push_text(out, " ");
    let ghost base = out@;
    let mut i: usize = 0;
    while i < attrs.len()
        invariant
            i <= attrs.len(),
            out@ + attrs_text(attrs@, i as int) == base + attrs_text(attrs@, 0),
        decreases attrs.len() - i,
    {
        let ghost before = out@;
        push_text(out, attrs[i].name.as_str());
        push_text(out, "=");
        let v = fmt_attr_value(&attrs[i].value);
        push_text(out, v.as_str());
        if i + 1 < attrs.len() {
            push_text(out, " ");
        }
        proof {
            assert(out@ + attrs_text(attrs@, i + 1) =~= before + attrs_text(attrs@, i as int));
        }
        i += 1;
    }
    assert(out@ + attrs_text(attrs@, i as int) =~= out@);
}

fn push_label(out: &mut Vec<char>, n: &Node)
    ensures
        final(out)@ == old(out)@ + node_label(*n),
{
    let ghost base = out@;
    match n {
        Node::Document(_) => push_text(out, "Document"),
        Node::Frontmatter(x) => {
            push_text(out, "Frontmatter  raw=");
            push_debug(out, trunc(x.raw.as_str(), 80).as_str());
        },
        Node::Import(x) => {
            push_text(out, "Import       raw=");
            push_debug(out, trunc(x.raw.as_str(), 80).as_str());
        },
        Node::Export(x) => {
            push_text(out, "Export       raw=");
            push_debug(out, trunc(x.raw.as_str(), 80).as_str());
        },
        Node::Heading(x) => {
            push_text(out, "Heading      level=");
            push_decimal(out, x.level as u64);
            push_text(out, " slug=\"");
            let slug = Heading::slug(x);
            push_text(out, slug.as_str());
            push_text(out, "\"");
        },
        Node::Paragraph(_) => push_text(out, "Paragraph"),
        Node::Text(x) => {
            push_text(out, "Text         ");
            push_debug(out, trunc(x.value.as_str(), 80).as_str());
        },
        Node::Bold(_) => push_text(out, "Bold"),
        Node::Italic(_) => push_text(out, "Italic"),
        Node::Strikethrough(_) => push_text(out, "Strikethrough"),
        Node::InlineCode(x) => {
            push_text(out, "InlineCode   ");
            push_debug(out, trunc(x.value.as_str(), 80).as_str());
        },
        Node::CodeBlock(x) => {
            push_text(out, "CodeBlock    lang=");
            push_debug_opt(out, &x.lang);
            push_text(out, " meta=");
            push_debug_opt(out, &x.meta);
            push_text(out, " bytes=");
            push_decimal(out, x.value.as_str().len() as u64);
        },
        Node::Link(x) => {
            push_text(out, "Link         href=\"");
            push_text(out, x.href.as_str());
            push_text(out, "\" title=");
            push_debug_opt(out, &x.title);
        },
        Node::Image(x) => {
            push_text(out, "Image        src=\"");
            push_text(out, x.src.as_str());
            push_text(out, "\" alt=");
            push_debug(out, x.alt.as_str());
            push_text(out, " title=");
            push_debug_opt(out, &x.title);
        },
        Node::HorizontalRule(_) => push_text(out, "HorizontalRule"),
        Node::Blockquote(_) => push_text(out, "Blockquote"),
        Node::List(x) => {
            push_text(out, "List         ordered=");
            push_bool(out, x.ordered);
            push_text(out, " start=");
            match x.start {
                None => push_text(out, "None"),
                Some(k) => {
                    push_text(out, "Some(");
                    push_decimal(out, k as u64);
                    push_text(out, ")");
                },
            }
        },
        Node::ListItem(_) => push_text(out, "ListItem"),
        Node::TaskListItem(x) => {
            push_text(out, "TaskListItem checked=");
            push_bool(out, x.checked);
        },
        Node::Table(x) => {
            push_text(out, "Table        align=[");
            push_aligns(out, &x.align);
            push_text(out, "]");
        },
        Node::TableRow(_) => push_text(out, "(table piece)"),
        Node::TableCell(_) => push_text(out, "(table piece)"),
        Node::JsxElement(x) => {
            push_text(out, "JsxElement   <");
            push_tag(out, &x.name, &x.attrs);
            push_text(out, ">");
        },
        Node::JsxSelfClosing(x) => {
            push_text(out, "JsxSelfClose <");
            push_tag(out, &x.name, &x.attrs);
            push_text(out, " />");
        },
        Node::JsxFragment(_) => push_text(out, "JsxFragment  <>"),
        Node::JsxExpression(x) => {
            push_text(out, "JsxExpr      ");
            push_debug(out, trunc(x.value.as_str(), 80).as_str());
        },
        Node::HardBreak(_) => push_text(out, "HardBreak"),
        Node::SoftBreak(_) => push_text(out, "SoftBreak"),
        Node::Html(x) => {
            push_text(out, "Html         ");
            push_debug(out, trunc(x.value.as_str(), 80).as_str());
        },
        Node::FootnoteRef(x) => {
            push_text(out, "FootnoteRef  id=");
            push_debug(out, x.id.as_str());
        },
        Node::FootnoteDef(x) => {
            push_text(out, "FootnoteDef  id=");
            push_debug(out, x.id.as_str());
        },
    }
    assert(out@ =~= base + node_label(*n));
}

fn push_cell_text(out: &mut Vec<char>, c: &Vec<Node>)
    ensures
        final(out)@ == old(out)@ + cell_text(c@),
{
    let mut i: usize = 0;
    while i < c.len()
        invariant
            i <= c.len(),
            out@ == old(out)@ + cell_text(c@.take(i as int)),
        decreases c.len() - i,
    {
        proof {
            assert(c@.take(i + 1).drop_last() =~= c@.take(i as int));
        }
        match &c[i] {
            Node::Text(t) => push_text(out, t.value.as_str()),
            _ => {},
        }
        i += 1;
        assert(out@ =~= old(out)@ + cell_text(c@.take(i as int)));
    }
    assert(c@.take(c.len() as int) =~= c@);
}

fn push_connector(out: &mut Vec<char>, last: bool)
    ensures
        final(out)@ == old(out)@ + connector(last),
{
    if last {
        push_text(out, "`- ");
    } else {
        push_text(out, "|- ");
    }
}

fn indented(prefix: &Vec<char>, last: bool) -> (r: Vec<char>)
    ensures
        r@ == prefix@ + indent(last),
{
    let mut p: Vec<char> = Vec::new();
    push_all(&mut p, prefix);
    if last {
        push_text(&mut p, "   ");
    } else {
        push_text(&mut p, "|  ");
    }
    p
}

fn push_cells_lines(out: &mut Vec<char>, cells: &Vec<TableCell>, prefix: &Vec<char>)
    ensures
        final(out)@ == old(out)@ + cells_lines(cells@, prefix@, 0),
{
    let mut i: usize = 0;
    while i < cells.len()
        invariant
            i <= cells.len(),
            out@ + cells_lines(cells@, prefix@, i as int) == old(out)@ + cells_lines(cells@, prefix@, 0),
        decreases cells.len() - i,
    {
        let ghost before = out@;
        push_all(out, prefix);
        push_connector(out, i + 1 == cells.len());
        push_text(out, "TableCell[");
        push_decimal(out, i as u64);
        push_text(out, "] ");
        let mut text: Vec<char> = Vec::new();
        push_cell_text(&mut text, &cells[i].children);
        let cut = trunc(string_of(&text).as_str(), 60);
        push_debug(out, cut.as_str());
        push_text(out, "\n");
        proof {
            assert(out@ + cells_lines(cells@, prefix@, i + 1) =~= before + cells_lines(cells@, prefix@, i as int));
        }
        i += 1;
    }
    assert(out@ + cells_lines(cells@, prefix@, i as int) =~= out@);
}

fn push_rows_lines(out: &mut Vec<char>, rows: &Vec<TableRow>, prefix: &Vec<char>)
    ensures
        final(out)@ == old(out)@ + rows_lines(rows@, prefix@, 0),
{
    let mut i: usize = 0;
    while i < rows.len()
        invariant
            i <= rows.len(),
            out@ + rows_lines(rows@, prefix@, i as int) == old(out)@ + rows_lines(rows@, prefix@, 0),
        decreases rows.len() - i,
    {
        let ghost before = out@;
        let last = i + 1 == rows.len();
        push_all(out, prefix);
        push_connector(out, last);
        push_text(out, "TableRow[");
        push_decimal(out, i as u64);
        push_text(out, "]\n");
        let p = indented(prefix, last);
        push_cells_lines(out, &rows[i].cells, &p);
        proof {
            assert(out@ + rows_lines(rows@, prefix@, i + 1) =~= before + rows_lines(rows@, prefix@, i as int));
        }
        i += 1;
    }
    assert(out@ + rows_lines(rows@, prefix@, i as int) =~= out@);
}

fn push_node_lines(out: &mut Vec<char>, n: &Node, prefix: &Vec<char>, last: bool)
    ensures
        final(out)@ == old(out)@ + node_lines(*n, prefix@, last),
    decreases n, 1nat, 0int,
{
    let ghost base = out@;
    push_all(out, prefix);
    push_connector(out, last);
    push_label(out, n);
    push_text(out, "\n");
    let p = indented(prefix, last);
    push_below_lines(out, n, &p);
    assert(out@ =~= base + node_lines(*n, prefix@, last));
}

fn push_below_lines(out: &mut Vec<char>, n: &Node, p: &Vec<char>)
    ensures
        final(out)@ == old(out)@ + below_lines(*n, p@),
    decreases n, 0nat, 0int,
{
    match n {
        Node::Document(x) => push_list_lines(out, &x.children, p),
        Node::Heading(x) => push_list_lines(out, &x.children, p),
        Node::Paragraph(x) => push_list_lines(out, &x.children, p),
        Node::Bold(x) => push_list_lines(out, &x.children, p),
        Node::Italic(x) => push_list_lines(out, &x.children, p),
        Node::Strikethrough(x) => push_list_lines(out, &x.children, p),
        Node::Link(x) => push_list_lines(out, &x.children, p),
        Node::Blockquote(x) => push_list_lines(out, &x.children, p),
        Node::List(x) => push_list_lines(out, &x.children, p),
        Node::ListItem(x) => push_list_lines(out, &x.children, p),
        Node::TaskListItem(x) => push_list_lines(out, &x.children, p),
        Node::JsxElement(x) => push_list_lines(out, &x.children, p),
        Node::JsxFragment(x) => push_list_lines(out, &x.children, p),
        Node::FootnoteDef(x) => push_list_lines(out, &x.children, p),
        Node::Table(x) => push_rows_lines(out, &x.children, p),
        _ => {
            assert(out@ =~= old(out)@ + below_lines(*n, p@));
        },
    }
}

fn push_list_lines(out: &mut Vec<char>, s: &Vec<Node>, prefix: &Vec<char>)
    ensures
        final(out)@ == old(out)@ + list_lines(s@, prefix@, 0),
    decreases s, 2nat, 0int,
{
    let mut i: usize = 0;
    while i < s.len()
        invariant
            i <= s.len(),
            out@ + list_lines(s@, prefix@, i as int) == old(out)@ + list_lines(s@, prefix@, 0),
        decreases s.len() - i,
    {
        let ghost before = out@;
        push_node_lines(out, &s[i], prefix, i + 1 == s.len());
        proof {
            assert(out@ + list_lines(s@, prefix@, i + 1) =~= before + list_lines(s@, prefix@, i as int));
        }
        i += 1;
    }
    assert(out@ + list_lines(s@, prefix@, i as int) =~= out@);
}

/// The tree view of a document: `Document`, then every node on a line of
/// its own under its parent, with its summary.
pub fn render_doc(d: &Document) -> (r: String)
    ensures
        r@ == doc_lines(*d),
{
    let mut out: Vec<char> = Vec::new();
    push_text(&mut out, "Document\n");
    let empty: Vec<char> = Vec::new();
    push_list_lines(&mut out, &d.children, &empty);
    assert(empty@ =~= Seq::<char>::empty());
    string_of(&out)
}

} // verus!
