use k2f_layout::model::Modifier;
use k2f_layout::pt::Pt;
use k2f_layout::run_split::{modifier_cmp, split_runs};
use k2f_layout::style::StylePatch;
use k2f_layout::theme::Theme;
use std::cmp::Ordering;

fn patch_color(c: &str) -> StylePatch {
    StylePatch { color: Some(c.to_string()), ..StylePatch::default() }
}

fn color_emphasis_theme() -> Theme {
    let mut theme = Theme::default();
    let by_intent = vec![("red".to_string(), patch_color("red")), ("blue".to_string(), patch_color("blue"))];
    theme.modifiers.styles.push(("emphasis".to_string(), by_intent));
    theme
}

fn m(s: usize, e: usize, t: &str, i: &str) -> Modifier {
    Modifier { range: [s, e], mod_type: t.to_string(), intent: i.to_string() }
}

#[test]
fn adjacent_modifiers_create_adjacent_runs() {
    let theme = color_emphasis_theme();
    let text = "HelloWorld";
    let modifiers = vec![m(0, 5, "emphasis", "red"), m(5, 10, "emphasis", "blue")];

    let runs = split_runs(text, "body", None, &modifiers, &theme).unwrap();
    assert_eq!(runs.len(), 2);
    assert_eq!(runs[0].start, 0);
    assert_eq!(runs[0].end, 5);
    assert_eq!(runs[0].text, "Hello");
    assert_eq!(runs[0].style.color, "red");
    assert_eq!(runs[1].start, 5);
    assert_eq!(runs[1].end, 10);
    assert_eq!(runs[1].text, "World");
    assert_eq!(runs[1].style.color, "blue");
}

#[test]
fn overlapping_same_type_more_specific_range_wins() {
    let theme = color_emphasis_theme();
    let text = "abcdef";
    let modifiers = vec![m(0, 6, "emphasis", "red"), m(1, 3, "emphasis", "blue")];

    let runs = split_runs(text, "body", None, &modifiers, &theme).unwrap();
    assert_eq!(runs.len(), 3);
    assert_eq!(
        (runs[0].start, runs[0].end, runs[0].text.as_str(), runs[0].style.color.as_str()),
        (0, 1, "a", "red")
    );
    assert_eq!(
        (runs[1].start, runs[1].end, runs[1].text.as_str(), runs[1].style.color.as_str()),
        (1, 3, "bc", "blue")
    );
    assert_eq!(
        (runs[2].start, runs[2].end, runs[2].text.as_str(), runs[2].style.color.as_str()),
        (3, 6, "def", "red")
    );
}

#[test]
fn overlapping_different_types_follow_precedence_deterministically() {
    let mut theme = Theme::default();
    theme.modifiers.precedence = vec!["emphasis".to_string(), "underline".to_string()];
    theme.modifiers.styles = vec![
        ("emphasis".to_string(), vec![("x".to_string(), patch_color("red"))]),
        ("underline".to_string(), vec![("x".to_string(), patch_color("blue"))]),
    ];

    let text = "abc";
    let modifiers = vec![m(0, 3, "underline", "x"), m(0, 3, "emphasis", "x")];

    let runs = split_runs(text, "body", None, &modifiers, &theme).unwrap();
    assert_eq!(runs.len(), 1);
    assert_eq!(runs[0].text, "abc");
    assert_eq!(runs[0].style.color, "blue");
}

#[test]
fn utf8_byte_ranges_split_on_char_boundaries() {
    let theme = color_emphasis_theme();
    let text = "a\u{1F642}b";

    assert_eq!(text.len(), 6);
    assert!(text.is_char_boundary(0));
    assert!(text.is_char_boundary(1));
    assert!(text.is_char_boundary(5));
    assert!(text.is_char_boundary(6));

    let modifiers = vec![m(1, 5, "emphasis", "red")];

    let runs = split_runs(text, "body", None, &modifiers, &theme).unwrap();
    assert_eq!(runs.len(), 3);

    assert_eq!((runs[0].start, runs[0].end, runs[0].text.as_str()), (0, 1, "a"));
    assert_eq!(runs[0].style.color, "black");

    assert_eq!((runs[1].start, runs[1].end, runs[1].text.as_str()), (1, 5, "\u{1F642}"));
    assert_eq!(runs[1].style.color, "red");

    assert_eq!((runs[2].start, runs[2].end, runs[2].text.as_str()), (5, 6, "b"));
    assert_eq!(runs[2].style.color, "black");
}

#[test]
fn superscript_shrinks_and_raises() {
    let theme = Theme::default();
    let text = "x2";
    let modifiers = vec![m(1, 2, "superscript", "default")];
    let runs = split_runs(text, "body", None, &modifiers, &theme).unwrap();
    assert_eq!(runs.len(), 2);
    let parent = runs[0].style.font_size;
    assert_eq!(runs[1].style.font_size, Pt(parent.0 * 7 / 10));
    assert_eq!(runs[1].style.baseline_shift, Pt(parent.0 * 450 / 1000));
    assert_eq!(runs[0].style.baseline_shift, Pt(0));
}

#[test]
fn subscript_shrinks_and_lowers() {
    let theme = Theme::default();
    let text = "H2O";
    let modifiers = vec![m(1, 2, "subscript", "default")];
    let runs = split_runs(text, "body", None, &modifiers, &theme).unwrap();
    assert_eq!(runs.len(), 3);
    let parent = runs[0].style.font_size;
    assert_eq!(runs[1].text, "2");
    assert_eq!(runs[1].style.font_size, Pt(parent.0 * 7 / 10));
    assert_eq!(runs[1].style.baseline_shift, Pt(-(parent.0 * 250 / 1000)));
}

#[test]
fn script_theme_font_size_is_ignored() {
    let mut theme = Theme::default();
    let by_intent = vec![(
        "default".to_string(),
        StylePatch { font_size: Some(Pt(99_000)), color: Some("red".to_string()), ..StylePatch::default() },
    )];
    theme.modifiers.styles.push(("superscript".to_string(), by_intent));

    let text = "a1";
    let modifiers = vec![m(1, 2, "superscript", "default")];
    let runs = split_runs(text, "body", None, &modifiers, &theme).unwrap();
    let parent = runs[0].style.font_size;
    assert_eq!(runs[1].style.font_size, Pt(parent.0 * 7 / 10));
    assert_ne!(runs[1].style.font_size, Pt(99_000));
    assert_eq!(runs[1].style.color, "red");
}

#[test]
fn utf8_non_boundary_range_is_rejected() {
    let theme = Theme::default();
    let text = "a\u{1F642}b";
    let modifiers = vec![m(1, 2, "emphasis", "red")];
    let err = split_runs(text, "body", None, &modifiers, &theme).unwrap_err();
    assert!(err.contains("not on UTF-8 char boundary"));
}

#[test]
fn no_modifiers_is_one_whole_run() {
    let theme = Theme::default();
    let runs = split_runs("h\u{e9}llo", "body", None, &[], &theme).unwrap();
    assert_eq!(runs.len(), 1);
    assert_eq!((runs[0].start, runs[0].end, runs[0].text.as_str()), (0, 6, "h\u{e9}llo"));
    assert!(runs[0].math_tex.is_none());
}

#[test]
fn range_past_end_is_rejected() {
    let theme = Theme::default();
    let err = split_runs("abc", "body", None, &[m(1, 4, "emphasis", "strong")], &theme).unwrap_err();
    assert!(err.contains("Invalid modifier range [1, 4] for text length 3"), "{err}");
    let err = split_runs("abc", "body", None, &[m(2, 2, "emphasis", "strong")], &theme).unwrap_err();
    assert!(err.contains("Invalid modifier range"), "{err}");
}

#[test]
fn unknown_modifier_type_is_rejected() {
    let theme = Theme::default();
    let err = split_runs("abc", "body", None, &[m(0, 1, "sparkle", "x")], &theme).unwrap_err();
    assert!(err.contains("Unknown modifier type"), "{err}");
}

#[test]
fn math_runs_carry_their_source_and_do_not_merge() {
    let theme = Theme::default();
    let mods = vec![m(1, 2, "math", "x^2"), m(2, 3, "math", "y")];
    let runs = split_runs("abcd", "body", None, &mods, &theme).unwrap();
    assert_eq!(runs.len(), 4);
    assert_eq!(runs[1].math_tex.as_deref(), Some("x^2"));
    assert_eq!(runs[2].math_tex.as_deref(), Some("y"));
    assert!(runs[3].math_tex.is_none());
}

#[test]
fn equal_styles_merge_across_breakpoints() {
    let theme = Theme::default();
    // Both halves are bold: the breakpoint at 2 does not split the run.
    let mods = vec![m(0, 2, "emphasis", "bold"), m(2, 4, "emphasis", "strong")];
    let runs = split_runs("abcd", "body", None, &mods, &theme).unwrap();
    assert_eq!(runs.len(), 1);
    assert_eq!((runs[0].start, runs[0].end, runs[0].text.as_str()), (0, 4, "abcd"));
    assert!(runs[0].style.bold);
}

#[test]
fn modifier_order_puts_longer_ranges_first() {
    let prec = vec!["emphasis".to_string()];
    let long = m(0, 6, "emphasis", "red");
    let short = m(1, 3, "emphasis", "blue");
    assert_eq!(modifier_cmp(&long, &short, &prec), Ordering::Less);
    assert_eq!(modifier_cmp(&short, &long, &prec), Ordering::Greater);
    assert_eq!(modifier_cmp(&short, &short, &prec), Ordering::Equal);
    // Unknown types come after listed ones, then by name.
    let a = m(0, 1, "zeta", "x");
    let b = m(0, 1, "alpha", "x");
    assert_eq!(modifier_cmp(&long, &a, &prec), Ordering::Less);
    assert_eq!(modifier_cmp(&a, &b, &prec), Ordering::Greater);
}
