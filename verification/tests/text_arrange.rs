use k2f_layout::model::{GlyphPosition, ListMarkerType};
use k2f_layout::pt::Pt;
use k2f_layout::style::{Style, TextAlign};
use k2f_layout::text_align::JustifyBudget;
use k2f_layout::text_arrange::{
    line_spaces, marker_align, marker_x, place_shaped_glyphs, place_text_lines, text_top, LinePlacement,
    CLUSTER_NOT_SOURCE,
};
use k2f_layout::text_types::{TextLine, TextRun};

fn run(text: &str) -> TextRun {
    TextRun { start: 0, end: text.len(), style: Style::default(), text: text.to_string(), math_tex: None }
}

fn math(tex: &str) -> TextRun {
    TextRun { math_tex: Some(tex.to_string()), ..run("\u{FFFC}") }
}

fn line(text: &str, width: i128, height: i128) -> TextLine {
    TextLine { runs: vec![run(text)], width: Pt(width), height: Pt(height) }
}

fn glyph(cluster: u32, advance: i128) -> GlyphPosition {
    GlyphPosition { glyph_id: cluster, cluster, x_offset: Pt(0), y_offset: Pt(0), x_advance: Pt(advance), y_advance: Pt(0) }
}

#[test]
fn short_text_is_centered_in_a_bounded_box() {
    assert_eq!(text_top(Pt(4), Pt(100), Pt(41)), Pt(33));
    assert_eq!(text_top(Pt(4), Pt(100), Pt(120)), Pt(4));
    assert_eq!(text_top(Pt(4), Pt(i128::MAX), Pt(41)), Pt(4));
}

#[test]
fn line_spaces_skip_math_atoms() {
    let runs = vec![run("a b c"), math("x y"), run(" d")];
    assert_eq!(line_spaces(&runs), 3);
}

#[test]
fn lines_stack_down_and_justify_all_but_the_last() {
    // Inner width 100, first-line indent 10, justified: first line room 90.
    let lines = vec![line("aa bb cc", 80, 12), line("dd ee", 60, 12), line("ff", 20, 14)];
    let placed = place_text_lines(Pt(5), Pt(100), Pt(10), TextAlign::Justify, Pt(3), &lines);
    assert_eq!(
        placed,
        vec![
            LinePlacement { x: Pt(15), y: Pt(3), extra_per: Pt(5), rem: 0 },
            LinePlacement { x: Pt(5), y: Pt(15), extra_per: Pt(40), rem: 0 },
            LinePlacement { x: Pt(5), y: Pt(27), extra_per: Pt(0), rem: 0 },
        ]
    );
}

#[test]
fn centered_and_end_aligned_lines_start_in_their_slack() {
    let lines = vec![line("abc", 41, 10)];
    assert_eq!(place_text_lines(Pt(0), Pt(100), Pt(0), TextAlign::Center, Pt(0), &lines)[0].x, Pt(29));
    assert_eq!(place_text_lines(Pt(0), Pt(100), Pt(0), TextAlign::End, Pt(0), &lines)[0].x, Pt(59));
    // A wider line starts at the left edge.
    let wide = vec![line("abc", 141, 10)];
    assert_eq!(place_text_lines(Pt(0), Pt(100), Pt(0), TextAlign::End, Pt(0), &wide)[0].x, Pt(0));
}

#[test]
fn justified_spaces_take_their_extras_in_order() {
    // "a b c": glyphs for each char, clusters 0..5.
    let chars: Vec<char> = "a b c".chars().collect();
    let mut glyphs: Vec<GlyphPosition> = (0..5).map(|c| glyph(c, 10)).collect();
    let mut budget = JustifyBudget { extra_per: Pt(3), rem: 1 };
    let adv = place_shaped_glyphs(&mut glyphs, &chars, Pt(100), Pt(50), Pt(2), 7, true, true, &mut budget);
    // Spaces get 3 + 1 and 3: 50 + 7.
    assert_eq!(adv, Pt(57));
    assert_eq!(budget.rem, 0);
    assert_eq!(glyphs.iter().map(|g| g.x_advance.0).collect::<Vec<_>>(), vec![10, 14, 10, 13, 10]);
    assert_eq!(glyphs.iter().map(|g| g.x_offset.0).collect::<Vec<_>>(), vec![100, 100, 104, 104, 107]);
    assert!(glyphs.iter().all(|g| g.y_offset == Pt(48)));
    assert_eq!(glyphs.iter().map(|g| g.cluster).collect::<Vec<_>>(), vec![7, 8, 9, 10, 11]);
}

#[test]
fn marker_glyphs_are_not_from_the_source() {
    let chars: Vec<char> = "1.".chars().collect();
    let mut glyphs = vec![glyph(0, 6), glyph(1, 3)];
    let mut budget = JustifyBudget { extra_per: Pt(0), rem: 0 };
    let adv = place_shaped_glyphs(&mut glyphs, &chars, Pt(4), Pt(0), Pt(0), 0, false, false, &mut budget);
    assert_eq!(adv, Pt(9));
    assert!(glyphs.iter().all(|g| g.cluster == CLUSTER_NOT_SOURCE));
    assert_eq!(glyphs[1].x_offset, Pt(4));
}

#[test]
fn markers_align_in_their_box() {
    assert_eq!(marker_align(None, Some(ListMarkerType::Number)), TextAlign::End);
    assert_eq!(marker_align(None, Some(ListMarkerType::Bullet)), TextAlign::Center);
    assert_eq!(marker_align(None, None), TextAlign::Center);
    assert_eq!(marker_align(Some(TextAlign::Start), Some(ListMarkerType::Number)), TextAlign::Start);
    // Box 20, label 8: ends at the box's end, 12 in.
    assert_eq!(marker_x(Pt(4), Pt(10), TextAlign::End, Pt(20), Pt(8)), Pt(26));
    assert_eq!(marker_x(Pt(4), Pt(10), TextAlign::Center, Pt(20), Pt(8)), Pt(20));
}
