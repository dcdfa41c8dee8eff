use dmc_parser::ast::{
    clone_node, default_span, Document, Heading, Image, Inline, InlineCode, Node, Paragraph, Text,
};

fn text(s: &str) -> Node {
    Node::Text(Text { value: s.to_string(), span: default_span() })
}

fn bold(c: Vec<Node>) -> Node {
    Node::Bold(Inline { children: c, span: default_span() })
}

#[test]
fn default_span_points_nowhere() {
    let s = default_span();
    assert_eq!((s.file.as_str(), s.line, s.column, s.length), ("", 0, 0, 0));
}

#[test]
fn heading_text_trims_each_level() {
    assert_eq!(Heading::plain_text(&[text("a"), bold(vec![text(" b ")]), text("c")]), "abc");
    assert_eq!(Heading::plain_text(&[text("  Hello "), bold(vec![text("big")]), text(" world ")]), "Hello big world");
    let img = Node::Image(Image { src: "x.png".into(), alt: "alt".into(), title: None, span: default_span() });
    let code = Node::InlineCode(InlineCode { value: "f()".into(), span: default_span() });
    assert_eq!(Heading::plain_text(&[img, code]), "f()");
}

#[test]
fn heading_slug_prefers_its_id() {
    let h = Heading { level: 2, children: vec![text("Hello World!")], span: default_span(), id: None };
    assert_eq!(h.slug(), "hello-world");
    let with_id =
        Heading { level: 2, children: vec![text("Hello World!")], span: default_span(), id: Some("custom".into()) };
    assert_eq!(with_id.slug(), "custom");
}

#[test]
fn children_of_containers() {
    let p = Node::Paragraph(Paragraph { children: vec![text("a"), text("b")], span: default_span() });
    assert_eq!(Node::children_of(&p), &[text("a"), text("b")]);
    assert!(Node::children_of(&text("x")).is_empty());
    let mut doc = Node::Document(Document { children: vec![], span: default_span() });
    Node::children_of_mut(&mut doc).unwrap().push(text("c"));
    assert_eq!(Node::children_of(&doc), &[text("c")]);
    assert!(Node::children_of_mut(&mut text("x")).is_none());
}

#[test]
fn deep_clone_is_equal() {
    let doc = Node::Document(Document {
        children: vec![Node::Paragraph(Paragraph { children: vec![text("x"), bold(vec![text("y")])], span: default_span() })],
        span: default_span(),
    });
    assert_eq!(clone_node(&doc), doc);
}
