use dmc_parser::ast::{
    BreakNode, CodeBlock, Document, Heading, Inline, JsxAttr, JsxAttrValue, JsxElement, JsxSelfClosing, List,
    ListItem, Node, Paragraph, Span, Table, TableCell, TableRow, Text,
};
use dmc_parser::render::render_doc;
use dmc_parser::table::TableAlign;

fn sp() -> Span {
    Span { file: "r.md".into(), line: 1, column: 1, length: 1 }
}

fn text(s: &str) -> Node {
    Node::Text(Text { value: s.to_string(), span: sp() })
}

#[test]
fn documents_draw_as_indented_trees() {
    let doc = Document {
        children: vec![
            Node::Heading(Heading { level: 1, children: vec![text("Hello")], span: sp(), id: None }),
            Node::Paragraph(Paragraph {
                children: vec![text("world "), Node::Bold(Inline { children: vec![text("yo")], span: sp() })],
                span: sp(),
            }),
            Node::Table(Table {
                align: vec![TableAlign::Left, TableAlign::Unset],
                children: vec![TableRow {
                    cells: vec![
                        TableCell { children: vec![text("a")], span: sp() },
                        TableCell { children: vec![text("b"), Node::SoftBreak(BreakNode { span: sp() }), text("c")], span: sp() },
                    ],
                    span: sp(),
                }],
                span: sp(),
            }),
        ],
        span: sp(),
    };
    let expected = [
        "Document\n",
        "|- Heading      level=1 slug=\"hello\"\n",
        "|  `- Text         \"Hello\"\n",
        "|- Paragraph\n",
        "|  |- Text         \"world \"\n",
        "|  `- Bold\n",
        "|     `- Text         \"yo\"\n",
        "`- Table        align=[Left, None]\n",
        "   `- TableRow[0]\n",
        "      |- TableCell[0] \"a\"\n",
        "      `- TableCell[1] \"bc\"\n",
    ]
    .join("");
    assert_eq!(render_doc(&doc), expected);
}

#[test]
fn summaries_show_the_node_fields() {
    let attr = JsxAttr { name: "a".into(), value: JsxAttrValue::String("b".into()), span: sp() };
    let doc = Document {
        children: vec![
            Node::List(List {
                ordered: true,
                start: Some(3),
                children: vec![Node::ListItem(ListItem { children: vec![text("say \"hi\"")], span: sp() })],
                span: sp(),
            }),
            Node::CodeBlock(CodeBlock { lang: Some("rs".into()), meta: None, value: "fn é".into(), span: sp() }),
            Node::JsxElement(JsxElement {
                name: "Y".into(),
                attrs: vec![],
                children: vec![Node::JsxSelfClosing(JsxSelfClosing { name: "X".into(), attrs: vec![attr], span: sp() })],
                span: sp(),
            }),
        ],
        span: sp(),
    };
    let expected = [
        "Document\n",
        "|- List         ordered=true start=Some(3)\n",
        "|  `- ListItem\n",
        "|     `- Text         \"say \\\"hi\\\"\"\n",
        "|- CodeBlock    lang=Some(\"rs\") meta=None bytes=5\n",
        "`- JsxElement   <Y>\n",
        "   `- JsxSelfClose <X a=\"b\" />\n",
    ]
    .join("");
    assert_eq!(render_doc(&doc), expected);
}
