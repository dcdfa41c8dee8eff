use dmc_parser::fence::strip_blockquote_prefix_from_fence_content;
use dmc_parser::text::trim_vec;

#[test]
fn one_level_of_quote_markers_is_taken_off() {
    assert_eq!(strip_blockquote_prefix_from_fence_content("> a\n> b\n", 1), "a\nb\n");
    assert_eq!(strip_blockquote_prefix_from_fence_content(">a\n", 1), "a\n");
    assert_eq!(strip_blockquote_prefix_from_fence_content(">\tcode", 1), "code");
}

#[test]
fn only_one_blank_follows_the_innermost_marker() {
    assert_eq!(strip_blockquote_prefix_from_fence_content(">   indented\n", 1), "  indented\n");
}

#[test]
fn blanks_between_nested_markers_are_skipped() {
    assert_eq!(strip_blockquote_prefix_from_fence_content("> >  x\n>\t> y", 2), " x\ny");
}

#[test]
fn up_to_three_leading_spaces_precede_the_marker() {
    assert_eq!(strip_blockquote_prefix_from_fence_content("   > a", 1), "a");
    assert_eq!(strip_blockquote_prefix_from_fence_content("    > a", 1), "    > a");
}

#[test]
fn lines_without_markers_are_kept_whole() {
    assert_eq!(strip_blockquote_prefix_from_fence_content("no marker\n> b", 1), "no marker\nb");
    assert_eq!(strip_blockquote_prefix_from_fence_content("> x\n", 2), "> x\n");
    assert_eq!(strip_blockquote_prefix_from_fence_content("", 1), "");
}

#[test]
fn stripping_keeps_every_line() {
    let raw = "> a\n>\n> > b\nplain\n   > c\n";
    let out = strip_blockquote_prefix_from_fence_content(raw, 1);
    assert_eq!(out, "a\n\n> b\nplain\nc\n");
    assert_eq!(out.matches('\n').count(), raw.matches('\n').count());
}

#[test]
fn trimming_agrees_with_std_whitespace() {
    for cp in 0u32..0x3100 {
        if let Some(c) = char::from_u32(cp) {
            let v = vec![c];
            assert_eq!(trim_vec(&v).is_empty(), c.is_whitespace(), "U+{:04X}", cp);
        }
    }
}
