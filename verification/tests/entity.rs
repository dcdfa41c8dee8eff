use dmc_parser::entity::{decode_entities_in, decode_entity, named_reference};

fn some(s: &str) -> Option<String> {
    Some(s.to_string())
}

#[test]
fn numeric_references_decode() {
    assert_eq!(decode_entity("&#42;"), some("*"));
    assert_eq!(decode_entity("&#x2A;"), some("*"));
    assert_eq!(decode_entity("&#X2a;"), some("*"));
    assert_eq!(decode_entity("&#x1F600;"), some("\u{1F600}"));
    assert_eq!(decode_entity("&#0;"), some("\u{FFFD}"));
    assert_eq!(decode_entity("&#+42;"), some("*"));
}

#[test]
fn malformed_numeric_references_do_not_decode() {
    assert_eq!(decode_entity("&#;"), None);
    assert_eq!(decode_entity("&#x;"), None);
    assert_eq!(decode_entity("&#xZZ;"), None);
    assert_eq!(decode_entity("&#99999999999;"), None);
    assert_eq!(decode_entity("&#xD800;"), None);
    assert_eq!(decode_entity("&#x110000;"), None);
}

#[test]
fn named_references_use_the_html5_table() {
    assert_eq!(decode_entity("&amp;"), some("&"));
    assert_eq!(decode_entity("&copy;"), some("\u{a9}"));
    assert_eq!(decode_entity("&ngE;"), some("\u{2267}\u{0338}"));
    assert_eq!(decode_entity("&bogus;"), None);
}

#[test]
fn references_inside_text_are_decoded() {
    assert_eq!(decode_entities_in("no references"), "no references");
    assert_eq!(decode_entities_in("a &amp; b &#42;"), "a & b *");
    assert_eq!(decode_entities_in("x &unknown; y"), "x &unknown; y");
    assert_eq!(decode_entities_in("lone & amp"), "lone & amp");
    assert_eq!(decode_entities_in("é"), "é");
    assert_eq!(decode_entities_in("é&amp;"), "é&");
    assert_eq!(decode_entities_in("café & co"), "café & co");
    assert_eq!(decode_entities_in("&é;"), "&é;");
}

#[test]
fn a_named_reference_decodes_when_the_table_changed_it() {
    assert_eq!(named_reference("&amp;", Some("&".to_string())), some("&"));
    assert_eq!(named_reference("&zzz;", Some("&zzz;".to_string())), None);
    assert_eq!(named_reference("&amp;", None), None);
}
