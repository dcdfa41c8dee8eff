use dmc_parser::slugger::slugify_lowercase;
use dmc_parser::slugger::{github_slugify, Slugger};

#[test]
fn strips_dots() {
    assert_eq!(github_slugify("0.4.3"), "043");
}

#[test]
fn strips_apostrophes() {
    assert_eq!(github_slugify("How It's Built"), "how-its-built");
}

#[test]
fn replaces_spaces_with_dash() {
    assert_eq!(github_slugify("Patch Changes"), "patch-changes");
}

#[test]
fn collapses_runs() {
    assert_eq!(github_slugify("Hello -- World"), "hello-world");
    assert_eq!(github_slugify("foo   bar"), "foo-bar");
}

#[test]
fn dedupes() {
    let mut s = Slugger::new();
    assert_eq!(s.slug("Patch Changes"), "patch-changes");
    assert_eq!(s.slug("Patch Changes"), "patch-changes-1");
    assert_eq!(s.slug("Patch Changes"), "patch-changes-2");
}

#[test]
fn keeps_underscores_and_existing_dashes() {
    assert_eq!(github_slugify("foo_bar-baz"), "foo_bar-baz");
}

#[test]
fn slug_drops_leading_and_trailing_dashes() {
    assert_eq!(github_slugify("-foo-"), "foo");
    assert_eq!(github_slugify("-- x"), "x");
    assert_eq!(github_slugify("  Trim Me  "), "trim-me");
}

#[test]
fn slug_drops_control_characters_and_lowercases_unicode() {
    assert_eq!(github_slugify("a\nb"), "ab");
    assert_eq!(github_slugify("Ünïcode Täg"), "ünïcode-täg");
}

#[test]
fn slug_never_has_double_or_trailing_dash() {
    for input in ["a - - b", "x--", "--", "a .- b", "Hello, World!"] {
        let s = github_slugify(input);
        assert!(!s.contains("--"), "{s}");
        assert!(!s.ends_with('-'), "{s}");
        assert!(!s.starts_with('-'), "{s}");
    }
}

#[test]
fn empty_headings_dedupe_to_dash_suffixes() {
    let mut s = Slugger::new();
    assert_eq!(s.slug(""), "");
    assert_eq!(s.slug("!!!"), "-1");
    assert_eq!(s.slug("Other"), "other");
    assert_eq!(s.slug(""), "-2");
}

#[test]
fn dedupe_counts_reach_two_digits() {
    let mut s = Slugger::new();
    let mut last = String::new();
    for _ in 0..12 {
        last = s.slug("Intro");
    }
    assert_eq!(last, "intro-11");
}

#[test]
fn lowercased_text_is_scanned_into_a_slug() {
    assert_eq!(slugify_lowercase("hello, world!"), "hello-world");
    assert_eq!(slugify_lowercase("a  -- b"), "a-b");
    assert_eq!(slugify_lowercase("  lead"), "lead");
    assert_eq!(slugify_lowercase("-foo"), "foo");
    assert_eq!(slugify_lowercase("tail -"), "tail");
    assert_eq!(slugify_lowercase("ümlaut_ok"), "ümlaut_ok");
}

#[test]
fn a_default_slugger_starts_fresh() {
    let mut s = Slugger::default();
    assert_eq!(s.slug("Intro"), "intro");
    assert_eq!(s.slug("Intro"), "intro-1");
}

#[test]
fn control_characters_vanish_from_slugs() {
    for cp in 0u32..0x100 {
        let c = char::from_u32(cp).unwrap();
        let s = format!("a{}b", c);
        let slug = slugify_lowercase(&s);
        if c.is_control() {
            assert_eq!(slug, "ab", "U+{:04X}", cp);
        } else if c.is_alphanumeric() {
            assert_eq!(slug, format!("a{}b", c), "U+{:04X}", cp);
        }
    }
}

#[test]
fn slugging_a_slug_gives_it_back() {
    for s in ["Hello, World!", "  Ünïcode  héading ", "a -- b", "_x_"] {
        let once = github_slugify(s);
        assert_eq!(github_slugify(&once), once);
    }
}
