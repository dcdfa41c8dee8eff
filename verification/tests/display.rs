use dmc_parser::ast::JsxAttrValue;
use dmc_parser::display::{fmt_attr_value, take_flag, trunc};

#[test]
fn long_text_is_cut_with_an_ellipsis() {
    assert_eq!(trunc("hello", 5), "hello");
    assert_eq!(trunc("hello!", 5), "hello...");
    assert_eq!(trunc("héllo wörld", 4), "héll...");
    assert_eq!(trunc("", 0), "");
    assert_eq!(trunc("a", 0), "...");
}

#[test]
fn attribute_values_print_as_in_source() {
    assert_eq!(fmt_attr_value(&JsxAttrValue::String("red".to_string())), "\"red\"");
    assert_eq!(fmt_attr_value(&JsxAttrValue::Expression("1 + 2".to_string())), "{1 + 2}");
    assert_eq!(fmt_attr_value(&JsxAttrValue::Boolean), "true");
    assert_eq!(fmt_attr_value(&JsxAttrValue::Spread("props".to_string())), "{...props}");
    let long = "x".repeat(45);
    assert_eq!(fmt_attr_value(&JsxAttrValue::Expression(long.clone())), format!("{{{}...}}", "x".repeat(40)));
    assert_eq!(fmt_attr_value(&JsxAttrValue::Spread(long)), format!("{{...{}...}}", "x".repeat(40)));
}

#[test]
fn flags_are_taken_out_of_the_arguments() {
    let mut args: Vec<String> = vec!["--json".into(), "a.md".into(), "--json".into(), "b.md".into()];
    assert!(take_flag(&mut args, "--json"));
    assert_eq!(args, vec!["a.md".to_string(), "b.md".to_string()]);
    assert!(!take_flag(&mut args, "--json"));
    assert_eq!(args, vec!["a.md".to_string(), "b.md".to_string()]);
}
