use dmc_parser::ast::{Node, Span, TableCell, Text};
use dmc_parser::table::make_row;
use dmc_parser::table::{
    line_starts_block_construct, looks_like_table_row, parse_alignment_row, split_cells, TableAlign,
};

#[test]
fn table_row_detection() {
    assert!(looks_like_table_row("| a | b |"));
    assert!(looks_like_table_row("a | b"));
    assert!(!looks_like_table_row("   "));
    assert!(!looks_like_table_row("plain text"));
}

#[test]
fn alignment_rows() {
    assert_eq!(
        parse_alignment_row("|:--|--:|:-:|---|"),
        Some(vec![TableAlign::Left, TableAlign::Right, TableAlign::Center, TableAlign::Unset])
    );
    assert_eq!(parse_alignment_row(" --- | :--- "), Some(vec![TableAlign::Unset, TableAlign::Left]));
    assert_eq!(parse_alignment_row("|---||"), None);
    assert_eq!(parse_alignment_row("| : |"), None);
    assert_eq!(parse_alignment_row("| -x- |"), None);
    assert_eq!(parse_alignment_row("| a | b |"), None);
}

#[test]
fn cells_split_on_unescaped_pipes_outside_code() {
    assert_eq!(split_cells("| a | b |"), vec![" a ", " b "]);
    assert_eq!(split_cells("| `\"x\" \\| \"y\"` | `\"z\"` |"), vec![" `\"x\" | \"y\"` ", " `\"z\"` "]);
    assert_eq!(split_cells("a|`b|c`|d"), vec!["a", "`b|c`", "d"]);
    assert_eq!(split_cells("x \\\\ y"), vec!["x \\\\ y"]);
    assert_eq!(split_cells("   "), Vec::<String>::new());
    assert_eq!(split_cells("|"), vec![""]);
}

#[test]
fn block_openers_end_tables() {
    for line in ["# h", "> q", "```rs", "~~~", "---", "* * *", "__ _", "- item", "+\tx", "12. x", "3) y"] {
        assert!(line_starts_block_construct(line), "{line}");
    }
    for line in ["a | b", "--x", "-", "12.x", "1.", "_ _", "**"] {
        assert!(!line_starts_block_construct(line), "{line}");
    }
}

#[test]
fn rows_hold_trimmed_cells() {
    let sp = Span { file: "t.md".into(), line: 3, column: 1, length: 9 };
    let text = |s: &str| Node::Text(Text { value: s.to_string(), span: sp.clone() });
    let cells = vec![" a ".to_string(), "   ".to_string(), " b ".to_string()];
    let parsed = vec![vec![text("A")], vec![text("ignored")], vec![]];
    let row = make_row(&cells, parsed, &sp);
    assert_eq!(row.span, sp);
    assert_eq!(
        row.cells,
        vec![
            TableCell { children: vec![text("A")], span: sp.clone() },
            TableCell { children: vec![], span: sp.clone() },
            TableCell { children: vec![text("b")], span: sp.clone() },
        ]
    );
}
