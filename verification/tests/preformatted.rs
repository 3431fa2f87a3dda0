use k2f_layout::preformatted::{layout_of_lines, preformatted_lines};
use k2f_layout::pt::Pt;
use k2f_layout::run_split::split_runs;
use k2f_layout::style::Style;
use k2f_layout::text_types::{line_height_for_style, TextLayout, TextRun};
use k2f_layout::theme::Theme;
use k2f_layout::wrap_tokenize::{split_run_for_wrapping, FragKind};

/// Lay out a code block with a stand-in measure: every character is 600 wide.
fn code_block(text: &str) -> TextLayout {
    let theme = Theme::default();
    let runs = split_runs(text, "code_block", None, &[], &theme).unwrap();
    let base = line_height_for_style(&Style::default());
    let frags: Vec<_> = runs.iter().flat_map(split_run_for_wrapping).collect();
    let widths: Vec<Pt> =
        frags.iter().map(|f| Pt(f.run.as_ref().map_or(0, |r| r.text.chars().count() as i128 * 600))).collect();
    let atom_heights = vec![Pt(0); frags.len()];
    layout_of_lines(preformatted_lines(&frags, &widths, &atom_heights, base))
}

fn line_text(runs: &[TextRun]) -> String {
    runs.iter().map(|r| r.text.as_str()).collect()
}

#[test]
fn code_block_preserves_leading_and_trailing_whitespace_per_line() {
    let layout = code_block("    let x = 1;   \nnext");
    assert_eq!(layout.lines.len(), 2);
    let line0 = line_text(&layout.lines[0].runs);
    assert!(line0.starts_with("    "));
    assert!(line0.ends_with("   "));
}

#[test]
fn code_block_preserves_blank_lines() {
    let layout = code_block("a\n\nb");
    assert_eq!(layout.lines.len(), 3);
    assert_eq!(layout.lines[1].runs.len(), 0);
    assert_eq!(layout.lines[1].width, Pt(0));
    assert!(layout.lines[1].height.0 > 0);
}

#[test]
fn code_block_never_soft_wraps_long_lines() {
    let layout = code_block("this_is_a_single_very_long_line_without_newlines");
    assert_eq!(layout.lines.len(), 1);
}

#[test]
fn preformatted_lines_keep_text_verbatim_and_measure_each_line() {
    let layout = code_block("ab  c\n  d");
    assert_eq!(layout.lines.len(), 2);
    assert_eq!(line_text(&layout.lines[0].runs), "ab  c");
    assert_eq!(layout.lines[0].width, Pt(3000));
    assert_eq!(line_text(&layout.lines[1].runs), "  d");
    assert_eq!(layout.lines[1].width, Pt(1800));
    // Touching fragments of one style merge into a single run.
    assert_eq!(layout.lines[0].runs.len(), 1);
    assert_eq!(layout.width, Pt(3000));
    let h = layout.lines[0].height;
    assert_eq!(layout.height, Pt(h.0 * 2));
}

#[test]
fn a_trailing_newline_leaves_an_empty_last_line() {
    let layout = code_block("x\n");
    assert_eq!(layout.lines.len(), 2);
    assert!(layout.lines[1].runs.is_empty());
    let frags = split_run_for_wrapping(&split_runs("x\n", "code_block", None, &[], &Theme::default()).unwrap()[0]);
    assert_eq!(frags.last().unwrap().kind, FragKind::Newline);
}
