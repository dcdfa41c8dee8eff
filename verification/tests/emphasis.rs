use dmc_parser::ast::{Inline, Node, Span, Text};
use dmc_parser::emphasis::{finish_emphasis, resolve_emphasis_delims, DelimRecord, EmphasisChar};
use dmc_parser::ParseOptions;

fn sp(column: usize) -> Span {
    Span { file: "t.md".to_string(), line: 1, column, length: 1 }
}

fn text(s: &str, column: usize) -> Node {
    Node::Text(Text { value: s.to_string(), span: sp(column) })
}

fn delim(c: EmphasisChar, run: u8, can_open: bool, can_close: bool, out_idx: usize, column: usize) -> DelimRecord {
    DelimRecord { c, run, can_open, can_close, out_idx, span: sp(column) }
}

fn italic(children: Vec<Node>, column: usize) -> Node {
    Node::Italic(Inline { children, span: sp(column) })
}

fn bold(children: Vec<Node>, column: usize) -> Node {
    Node::Bold(Inline { children, span: sp(column) })
}

#[test]
fn single_markers_make_italic() {
    // *foo*
    let mut out = vec![text("*", 1), text("foo", 2), text("*", 5)];
    let mut delims = vec![
        delim(EmphasisChar::Asterisk, 1, true, false, 0, 1),
        delim(EmphasisChar::Asterisk, 1, false, true, 2, 5),
    ];
    resolve_emphasis_delims(&mut out, &mut delims);
    assert_eq!(out, vec![italic(vec![text("foo", 2)], 1)]);
    assert_eq!(delims[0].run, 0);
    assert_eq!(delims[1].run, 0);
}

#[test]
fn double_markers_make_bold() {
    // __foo__
    let mut out = vec![text("__", 1), text("foo", 3), text("__", 6)];
    let mut delims = vec![
        delim(EmphasisChar::Underscore, 2, true, false, 0, 1),
        delim(EmphasisChar::Underscore, 2, false, true, 2, 6),
    ];
    resolve_emphasis_delims(&mut out, &mut delims);
    assert_eq!(out, vec![bold(vec![text("foo", 3)], 1)]);
}

#[test]
fn triple_markers_nest_bold_in_italic() {
    // ***foo***  -> <em><strong>foo</strong></em>
    let mut out = vec![text("***", 1), text("foo", 4), text("***", 7)];
    let mut delims = vec![
        delim(EmphasisChar::Asterisk, 3, true, false, 0, 1),
        delim(EmphasisChar::Asterisk, 3, false, true, 2, 7),
    ];
    resolve_emphasis_delims(&mut out, &mut delims);
    assert_eq!(out, vec![italic(vec![bold(vec![text("foo", 4)], 1)], 1)]);
}

#[test]
fn leftover_opener_markers_stay_as_text() {
    // **foo*  -> *<em>foo</em>
    let mut out = vec![text("**", 1), text("foo", 3), text("*", 6)];
    let mut delims = vec![
        delim(EmphasisChar::Asterisk, 2, true, false, 0, 1),
        delim(EmphasisChar::Asterisk, 1, false, true, 2, 6),
    ];
    resolve_emphasis_delims(&mut out, &mut delims);
    assert_eq!(out, vec![text("*", 1), italic(vec![text("foo", 3)], 1)]);
    assert_eq!(delims[0].run, 1);
    assert!(delims[0].can_open);
}

#[test]
fn leftover_closer_markers_stay_as_text() {
    // *foo**  -> <em>foo</em>*
    let mut out = vec![text("*", 1), text("foo", 2), text("**", 5)];
    let mut delims = vec![
        delim(EmphasisChar::Asterisk, 1, true, false, 0, 1),
        delim(EmphasisChar::Asterisk, 2, false, true, 2, 5),
    ];
    resolve_emphasis_delims(&mut out, &mut delims);
    assert_eq!(out, vec![italic(vec![text("foo", 2)], 1), text("*", 5)]);
    assert_eq!(delims[1].run, 1);
}

#[test]
fn mismatched_characters_do_not_pair() {
    // *foo_
    let mut out = vec![text("*", 1), text("foo", 2), text("_", 5)];
    let mut delims = vec![
        delim(EmphasisChar::Asterisk, 1, true, false, 0, 1),
        delim(EmphasisChar::Underscore, 1, false, true, 2, 5),
    ];
    resolve_emphasis_delims(&mut out, &mut delims);
    assert_eq!(out, vec![text("*", 1), text("foo", 2), text("_", 5)]);
}

#[test]
fn markers_inside_a_pair_are_spent() {
    // *foo _bar* baz_  -> <em>foo _bar</em> baz_
    let mut out = vec![
        text("*", 1),
        text("foo ", 2),
        text("_", 6),
        text("bar", 7),
        text("*", 10),
        text(" baz", 11),
        text("_", 15),
    ];
    let mut delims = vec![
        delim(EmphasisChar::Asterisk, 1, true, false, 0, 1),
        delim(EmphasisChar::Underscore, 1, true, false, 2, 6),
        delim(EmphasisChar::Asterisk, 1, false, true, 4, 10),
        delim(EmphasisChar::Underscore, 1, false, true, 6, 15),
    ];
    resolve_emphasis_delims(&mut out, &mut delims);
    assert_eq!(
        out,
        vec![italic(vec![text("foo ", 2), text("_", 6), text("bar", 7)], 1), text(" baz", 11), text("_", 15)]
    );
    assert_eq!(delims[1].run, 0);
    assert_eq!(delims[3].out_idx, 2);
}

#[test]
fn rule_of_three_blocks_pairing() {
    // *foo**bar  : the middle run can both open and close; 1 + 2 is a
    // multiple of three while 1 is not, so it does not close the first.
    let mut out = vec![text("*", 1), text("foo", 2), text("**", 5), text("bar", 7)];
    let mut delims = vec![
        delim(EmphasisChar::Asterisk, 1, true, false, 0, 1),
        delim(EmphasisChar::Asterisk, 2, true, true, 2, 5),
    ];
    resolve_emphasis_delims(&mut out, &mut delims);
    assert_eq!(out, vec![text("*", 1), text("foo", 2), text("**", 5), text("bar", 7)]);
    assert_eq!(delims[0].run, 1);
    assert_eq!(delims[1].run, 2);
}

#[test]
fn no_closers_change_nothing() {
    let mut out = vec![text("*", 1), text("a", 2)];
    let mut delims = vec![delim(EmphasisChar::Asterisk, 1, true, false, 0, 1)];
    resolve_emphasis_delims(&mut out, &mut delims);
    assert_eq!(out, vec![text("*", 1), text("a", 2)]);
    assert_eq!(delims[0].run, 1);
}

fn quadruple() -> (Vec<Node>, Vec<DelimRecord>) {
    // ****foo****
    (
        vec![text("****", 1), text("foo", 5), text("****", 8)],
        vec![
            delim(EmphasisChar::Asterisk, 4, true, false, 0, 1),
            delim(EmphasisChar::Asterisk, 4, false, true, 2, 8),
        ],
    )
}

#[test]
fn default_options_are_all_off() {
    let o = ParseOptions::default();
    assert!(!o.cm_strict_html_blocks && !o.gfm_autolinks && !o.legacy_gfm_emphasis);
}

#[test]
fn finishing_nests_strong_unless_legacy() {
    let (mut out, mut delims) = quadruple();
    finish_emphasis(&mut out, &mut delims, ParseOptions::default());
    assert_eq!(out, vec![bold(vec![bold(vec![text("foo", 5)], 1)], 1)]);

    let (mut out, mut delims) = quadruple();
    let legacy = ParseOptions { legacy_gfm_emphasis: true, ..ParseOptions::default() };
    finish_emphasis(&mut out, &mut delims, legacy);
    assert_eq!(out, vec![bold(vec![text("foo", 5)], 1)]);

    let mut plain = vec![text("**", 1)];
    let mut none: Vec<DelimRecord> = Vec::new();
    finish_emphasis(&mut plain, &mut none, legacy);
    assert_eq!(plain, vec![text("**", 1)]);
}

#[test]
fn long_runs_pair_when_their_sum_fits_a_byte() {
    let long = "*".repeat(200);
    let mut out = vec![text(&long, 1), text("foo", 201), text("**", 204)];
    let mut delims = vec![
        delim(EmphasisChar::Asterisk, 200, true, false, 0, 1),
        delim(EmphasisChar::Asterisk, 2, false, true, 2, 204),
    ];
    resolve_emphasis_delims(&mut out, &mut delims);
    assert_eq!(out, vec![text(&"*".repeat(198), 1), bold(vec![text("foo", 201)], 1)]);
    assert_eq!(delims[0].run, 198);
}
