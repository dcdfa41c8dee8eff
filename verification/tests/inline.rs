use dmc_parser::ast::{Image, Inline, InlineCode, Link, Node, Span, Text};
use dmc_parser::inline::{
    is_email_local_byte, is_punct_or_symbol_category, is_unicode_punct, plain_text, push_node_label, split_destination_title,
    trailing_email_local_suffix_start, unescape_link_part, unescape_markdown, utf8_char_len,
};

fn sp() -> Span {
    Span { file: String::new(), line: 1, column: 1, length: 0 }
}

fn text(s: &str) -> Node {
    Node::Text(Text { value: s.to_string(), span: sp() })
}

#[test]
fn utf8_lead_bytes_give_the_sequence_width() {
    assert_eq!(utf8_char_len(b'A'), 1);
    assert_eq!(utf8_char_len(0xC3), 2);
    assert_eq!(utf8_char_len(0xE2), 3);
    assert_eq!(utf8_char_len(0xF0), 4);
}

#[test]
fn email_local_bytes() {
    for b in [b'a', b'Z', b'0', b'.', b'_', b'+', b'-'] {
        assert!(is_email_local_byte(b));
    }
    for b in [b'@', b' ', b'/', 0xC3] {
        assert!(!is_email_local_byte(b));
    }
    assert_eq!(trailing_email_local_suffix_start("mail foo"), Some(5));
    assert_eq!(trailing_email_local_suffix_start("foo.bar"), Some(0));
    assert_eq!(trailing_email_local_suffix_start("foo "), None);
    assert_eq!(trailing_email_local_suffix_start(""), None);
    assert_eq!(trailing_email_local_suffix_start("é_x"), Some(2));
}

#[test]
fn backslash_escapes_of_punctuation_are_resolved() {
    assert_eq!(unescape_markdown("\\*literal\\*"), "*literal*");
    assert_eq!(unescape_markdown("\\a \\\\ x\\"), "\\a \\ x\\");
    assert_eq!(unescape_markdown("é\\_"), "é_");
    assert_eq!(unescape_markdown("no backslash *here*"), "no backslash *here*");
    assert_eq!(unescape_link_part("a\\(b\\)"), "a(b)");
    assert_eq!(unescape_link_part("plain é"), "plain é");
    assert_eq!(unescape_link_part("é\\*"), "é*");
    assert_eq!(unescape_link_part("é\\!"), unescape_markdown("é\\!"));
}

#[test]
fn destination_and_title_are_split() {
    let s = |d: &str, t: Option<&str>| Some((d.to_string(), t.map(|t| t.to_string())));
    assert_eq!(split_destination_title("   "), s("", None));
    assert_eq!(split_destination_title("/url"), s("/url", None));
    assert_eq!(split_destination_title(" /url \"the title\" "), s("/url", Some("the title")));
    assert_eq!(split_destination_title("/url 'single'"), s("/url", Some("single")));
    assert_eq!(split_destination_title("/url (paren (nested))"), s("/url", Some("paren (nested)")));
    assert_eq!(split_destination_title("<a b> \"t\""), s("a b", Some("t")));
    assert_eq!(split_destination_title("<a\\>b>"), s("a\\>b", None));
    assert_eq!(split_destination_title("<a"), None);
    assert_eq!(split_destination_title("<a<b>"), None);
    assert_eq!(split_destination_title("/url junk"), None);
    assert_eq!(split_destination_title("/url \"a\"b\""), None);
    assert_eq!(split_destination_title("/url (a))"), None);
    assert_eq!(split_destination_title("url \"unterminated"), s("url", None));
    assert_eq!(split_destination_title("/url 'x"), s("/url", None));
    assert_eq!(split_destination_title("/url ("), s("/url", None));
    assert_eq!(split_destination_title("/url \"title \"and\" title\""), None);
    assert_eq!(split_destination_title("/url \"a\\\"b\""), s("/url", Some("a\\\"b")));
}

#[test]
fn unicode_punctuation_and_symbols() {
    for c in ['!', '.', '$', '+', '\u{00A1}', '\u{2014}', '\u{20AC}'] {
        assert!(is_unicode_punct(c), "{c:?}");
    }
    for c in ['a', '1', ' ', '\u{00E9}'] {
        assert!(!is_unicode_punct(c), "{c:?}");
    }
}

fn inline_nodes() -> Vec<Node> {
    vec![
        text("a "),
        Node::Bold(Inline { children: vec![text("b")], span: sp() }),
        Node::Italic(Inline { children: vec![text("c")], span: sp() }),
        Node::Strikethrough(Inline { children: vec![text("d")], span: sp() }),
        Node::Link(Link { href: "/u".into(), title: None, children: vec![text("e")], span: sp() }),
        Node::Image(Image { src: "i.png".into(), alt: "f".into(), title: None, span: sp() }),
        Node::InlineCode(InlineCode { value: "g".into(), span: sp() }),
    ]
}

#[test]
fn plain_text_flattens_inline_nodes() {
    assert_eq!(plain_text(&inline_nodes()), "a bcdefg");
}

#[test]
fn labels_keep_their_markdown() {
    let mut out = String::from(">");
    for n in inline_nodes() {
        push_node_label(&mut out, &n);
    }
    assert_eq!(out, ">a **b***c*~~d~~[e](/u)![f](i.png)`g`");
}

#[test]
fn punctuation_and_symbol_categories_by_position() {
    for k in [0u8, 1, 3, 4, 7, 9, 13, 15, 17, 20, 21] {
        assert!(is_punct_or_symbol_category(k), "{k}");
    }
    for k in [2u8, 5, 6, 8, 10, 11, 12, 14, 16, 18, 19, 22, 23, 24, 25, 26, 27, 28, 29] {
        assert!(!is_punct_or_symbol_category(k), "{k}");
    }
}
